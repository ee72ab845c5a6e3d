//! Path text helpers and the deletion safety checks. Paths are byte strings;
//! joining inserts a single separator.

use vstd::prelude::*;

use crate::json::{ascii_seq, emit_lit};
use crate::payload::{sub_match_at, find_subsequence};

verus! {

/// `a` joined to `b` with a slash.
pub open spec fn joined(a: Seq<u8>, b: Seq<u8>) -> Seq<u8> {
    a + seq![0x2fu8] + b
}

/// Joins two path fragments with a slash.
pub fn path_join(a: &Vec<u8>, b: &Vec<u8>) -> (r: Vec<u8>)
    ensures
        r@ == joined(a@, b@),
{
    let mut out: Vec<u8> = Vec::new();
    out.extend_from_slice(a.as_slice());
    out.push(0x2f);
    out.extend_from_slice(b.as_slice());
    proof {
        assert(out@ =~= joined(a@, b@));
    }
    out
}

/// The bytes of an ASCII literal as a vector.
pub fn lit_vec(lit: &str) -> (r: Vec<u8>)
    requires
        vstd::string::is_ascii(lit),
    ensures
        r@ == ascii_seq(lit@),
{
    let mut out: Vec<u8> = Vec::new();
    emit_lit(&mut out, lit);
    proof {
        assert(out@ =~= ascii_seq(lit@));
    }
    out
}

/// `needle` occurs somewhere inside `haystack`.
pub open spec fn contains_sub(h: Seq<u8>, n: Seq<u8>) -> bool {
    exists|i: int| sub_match_at(h, n, i)
}

/// Tests whether one byte string occurs inside another.
pub fn contains_bytes(h: &Vec<u8>, n: &Vec<u8>) -> (r: bool)
    ensures
        r == contains_sub(h@, n@),
{
    if n.len() == 0 {
        proof {
            assert(h@.subrange(0, 0) =~= n@);
            assert(sub_match_at(h@, n@, 0));
        }
        return true;
    }
    match find_subsequence(h, n) {
        Some(i) => {
            proof {
                assert(sub_match_at(h@, n@, i as int));
            }
            true
        },
        None => false,
    }
}

/// Two byte strings hold the same bytes.
pub fn bytes_eq(a: &Vec<u8>, b: &Vec<u8>) -> (r: bool)
    ensures
        r == (a@ == b@),
{
    if a.len() != b.len() {
        return false;
    }
    let mut i: usize = 0;
    while i < a.len()
        invariant
            a@.len() == b@.len(),
            i <= a@.len(),
            forall|t: int| 0 <= t < i ==> a@[t] == b@[t],
        decreases a@.len() - i,
    {
        if a[i] != b[i] {
            proof {
                assert(a@ == b@ ==> a@[i as int] == b@[i as int]);
            }
            return false;
        }
        i = i + 1;
    }
    proof {
        assert(a@ =~= b@);
    }
    true
}

/// A directory may be removed for `app_id` only when it is none of the root
/// directories, its path names the application, and it lies under a known
/// installation area.
pub open spec fn safe_to_delete(path: Seq<u8>, app_id: Seq<u8>) -> bool {
    if path == ascii_seq("/"@) || path == ascii_seq("/home"@) || path == ascii_seq("/usr"@) {
        false
    } else if !contains_sub(path, app_id) {
        false
    } else {
        contains_sub(path, ascii_seq(".local/share"@)) || contains_sub(
            path,
            ascii_seq("/usr/share/"@),
        ) || contains_sub(path, ascii_seq("/usr/local/share/"@)) || contains_sub(
            path,
            ascii_seq("/opt/"@),
        )
    }
}

/// The uninstaller's safety check before any directory removal.
pub fn is_safe_to_delete(path: &Vec<u8>, app_id: &Vec<u8>) -> (r: bool)
    ensures
        r == safe_to_delete(path@, app_id@),
{
    proof {
        reveal_strlit("/");
        reveal_strlit("/home");
        reveal_strlit("/usr");
        reveal_strlit(".local/share");
        reveal_strlit("/usr/share/");
        reveal_strlit("/usr/local/share/");
        reveal_strlit("/opt/");
        assert(vstd::string::is_ascii("/") && vstd::string::is_ascii("/home")
            && vstd::string::is_ascii("/usr") && vstd::string::is_ascii(".local/share")
            && vstd::string::is_ascii("/usr/share/") && vstd::string::is_ascii(
            "/usr/local/share/",
        ) && vstd::string::is_ascii("/opt/"));
    }
    let root = lit_vec("/");
    let home = lit_vec("/home");
    let usr = lit_vec("/usr");
    if bytes_eq(path, &root) || bytes_eq(path, &home) || bytes_eq(path, &usr) {
        return false;
    }
    if !contains_bytes(path, app_id) {
        return false;
    }
    let local = lit_vec(".local/share");
    let usr_share = lit_vec("/usr/share/");
    let usr_local = lit_vec("/usr/local/share/");
    let opt = lit_vec("/opt/");
    contains_bytes(path, &local) || contains_bytes(path, &usr_share) || contains_bytes(
        path,
        &usr_local,
    ) || contains_bytes(path, &opt)
}

/// A file may be removed for `app_id` only when its path names the
/// application and it is not a directory; whether the path is a directory is
/// the caller's observation of the filesystem.
pub fn is_file_safe_to_delete(path: &Vec<u8>, app_id: &Vec<u8>, is_dir: bool) -> (r: bool)
    ensures
        r == (contains_sub(path@, app_id@) && !is_dir),
{
    if !contains_bytes(path, app_id) {
        return false;
    }
    !is_dir
}

/// Base directory of system-wide installations.
pub fn base_dir() -> (r: Vec<u8>)
    ensures
        r@ == ascii_seq("/usr"@),
{
    proof {
        reveal_strlit("/usr");
        assert(vstd::string::is_ascii("/usr"));
    }
    lit_vec("/usr")
}

/// System-wide applications directory.
pub fn applications_dir() -> (r: Vec<u8>)
    ensures
        r@ == ascii_seq("/usr/share/applications"@),
{
    proof {
        reveal_strlit("/usr/share/applications");
        assert(vstd::string::is_ascii("/usr/share/applications"));
    }
    lit_vec("/usr/share/applications")
}

/// System-wide binary directory.
pub fn bin_dir() -> (r: Vec<u8>)
    ensures
        r@ == ascii_seq("/usr/bin"@),
{
    proof {
        reveal_strlit("/usr/bin");
        assert(vstd::string::is_ascii("/usr/bin"));
    }
    lit_vec("/usr/bin")
}

/// Installation directory of an application under a base directory:
/// `{base}/share/{app_id}`.
pub fn app_install_dir(base_dir: &Vec<u8>, app_id: &Vec<u8>) -> (r: Vec<u8>)
    ensures
        r@ == base_dir@ + ascii_seq("/share/"@) + app_id@,
{
    let mut out: Vec<u8> = Vec::new();
    out.extend_from_slice(base_dir.as_slice());
    proof {
        reveal_strlit("/share/");
        assert(vstd::string::is_ascii("/share/"));
    }
    emit_lit(&mut out, "/share/");
    out.extend_from_slice(app_id.as_slice());
    proof {
        assert(out@ =~= base_dir@ + ascii_seq("/share/"@) + app_id@);
    }
    out
}

/// The `.desktop` path of an application under an applications directory.
pub fn desktop_file_path(apps_dir: &Vec<u8>, app_id: &Vec<u8>) -> (r: Vec<u8>)
    ensures
        r@ == apps_dir@ + seq![0x2fu8] + app_id@ + ascii_seq(".desktop"@),
{
    let mut out: Vec<u8> = Vec::new();
    out.extend_from_slice(apps_dir.as_slice());
    out.push(0x2f);
    out.extend_from_slice(app_id.as_slice());
    proof {
        reveal_strlit(".desktop");
        assert(vstd::string::is_ascii(".desktop"));
    }
    emit_lit(&mut out, ".desktop");
    proof {
        assert(out@ =~= apps_dir@ + seq![0x2fu8] + app_id@ + ascii_seq(".desktop"@));
    }
    out
}

/// The icon path of an application for a given size directory and extension:
/// `{icons}/{size}/apps/{app_id}.{ext}`.
pub fn icon_path(icons_dir: &Vec<u8>, size: &Vec<u8>, app_id: &Vec<u8>, ext: &Vec<u8>) -> (r: Vec<
    u8,
>)
    ensures
        r@ == icons_dir@ + seq![0x2fu8] + size@ + ascii_seq("/apps/"@) + app_id@ + seq![0x2eu8]
            + ext@,
{
    let mut out: Vec<u8> = Vec::new();
    out.extend_from_slice(icons_dir.as_slice());
    out.push(0x2f);
    out.extend_from_slice(size.as_slice());
    proof {
        reveal_strlit("/apps/");
        assert(vstd::string::is_ascii("/apps/"));
    }
    emit_lit(&mut out, "/apps/");
    out.extend_from_slice(app_id.as_slice());
    out.push(0x2e);
    out.extend_from_slice(ext.as_slice());
    proof {
        assert(out@ =~= icons_dir@ + seq![0x2fu8] + size@ + ascii_seq("/apps/"@) + app_id@ + seq![
            0x2eu8,
        ] + ext@);
    }
    out
}

} // verus!
