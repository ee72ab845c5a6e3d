//! The per-application install manifest: what was installed, when, where.

use vstd::prelude::*;

use crate::LxeError;
use crate::json::{
    ascii_seq, jstr, jbool, jarr, sp_str, sp_bool, sp_arr, emit_lit, emit_jstr, emit_jarr,
    parse_jstr, parse_jbool, parse_jarr, key_is, lemma_split_at, lemma_sp_str_rt,
    lemma_sp_bool_rt, lemma_sp_arr_rt, lemma_esc_plain, lemma_join_at,
};
use crate::metadata::{mem_key, seg, seg_opt_str, k_app_id, k_name, k_version, lemma_member_common};

verus! {

/// The record of one installation: identity, version, time, scope, and every
/// path the installer created.
pub struct InstallManifest {
    pub app_id: Vec<u8>,
    pub name: Option<Vec<u8>>,
    pub version: Vec<u8>,
    pub installed_at: Vec<u8>,
    pub is_system: bool,
    pub files: Vec<Vec<u8>>,
}

/// Relies on `std::time::SystemTime`: the number of seconds since the epoch,
/// zero should the clock read before it. Nothing can be promised of the
/// clock's value.
#[verifier::external_body]
pub fn now_unix_seconds() -> (r: u64)
{
    match std::time::SystemTime::now().duration_since(std::time::SystemTime::UNIX_EPOCH) {
        Ok(d) => d.as_secs(),
        Err(_) => 0,
    }
}

/// The timestamp text the manifest records for a given clock reading:
/// `unix:` followed by the seconds in decimal.
pub fn timestamp_text(secs: u64) -> (r: Vec<u8>)
    ensures
        r@ == ascii_seq("unix:"@) + crate::json::dec_u64(secs),
{
    proof {
        reveal_strlit("unix:");
        assert(vstd::string::is_ascii("unix:"));
    }
    let mut out: Vec<u8> = Vec::new();
    crate::json::emit_lit(&mut out, "unix:");
    crate::json::emit_u64(&mut out, secs);
    out
}

impl InstallManifest {
    /// A fresh manifest stamped with the current time and no files yet.
    pub fn new(app_id: Vec<u8>, name: Option<Vec<u8>>, version: Vec<u8>, is_system: bool) -> (r:
        InstallManifest)
        ensures
            r.app_id@ == app_id@,
            r.name == name,
            r.version@ == version@,
            r.is_system == is_system,
            r.files@.len() == 0,
            exists|n: u64| r.installed_at@ == ascii_seq("unix:"@) + crate::json::dec_u64(n),
            r.installed_at@.len() >= 5,
            r.installed_at@.subrange(0, 5) == ascii_seq("unix:"@),
    {
        let secs = now_unix_seconds();
        let stamp = timestamp_text(secs);
        proof {
            reveal_strlit("unix:");
            assert(ascii_seq("unix:"@).len() == 5);
            crate::json::lemma_dec_u64_len_pos(secs);
            assert(stamp@.subrange(0, 5) =~= ascii_seq("unix:"@));
        }
        InstallManifest { app_id, name, version, installed_at: stamp, is_system, files: Vec::new() }
    }

    /// Records one created path.
    pub fn add_file(&mut self, path: Vec<u8>)
        ensures
            final(self).files@ == old(self).files@.push(path),
            final(self).app_id == old(self).app_id,
            final(self).name == old(self).name,
            final(self).version == old(self).version,
            final(self).installed_at == old(self).installed_at,
            final(self).is_system == old(self).is_system,
    {
        self.files.push(path);
    }

    /// The manifest file of an application: `{data}/lxe/manifests/{app_id}.json`.
    pub fn manifest_path(data_dir: &Vec<u8>, app_id: &Vec<u8>) -> (r: Vec<u8>)
        ensures
            r@ == data_dir@ + ascii_seq("/lxe/manifests/"@) + app_id@ + ascii_seq(".json"@),
    {
        let mut out: Vec<u8> = Vec::new();
        out.extend_from_slice(data_dir.as_slice());
        proof {
            reveal_strlit("/lxe/manifests/");
            reveal_strlit(".json");
            assert(vstd::string::is_ascii("/lxe/manifests/") && vstd::string::is_ascii(".json"));
        }
        crate::json::emit_lit(&mut out, "/lxe/manifests/");
        out.extend_from_slice(app_id.as_slice());
        crate::json::emit_lit(&mut out, ".json");
        proof {
            assert(out@ =~= data_dir@ + ascii_seq("/lxe/manifests/"@) + app_id@ + ascii_seq(
                ".json"@,
            ));
        }
        out
    }
}

} // verus!

verus! {

/// Mathematical view of an install manifest.
pub ghost struct ManifestV {
    pub app_id: Seq<u8>,
    pub name: Option<Seq<u8>>,
    pub version: Seq<u8>,
    pub installed_at: Seq<u8>,
    pub is_system: bool,
    pub files: Seq<Seq<u8>>,
}

impl View for InstallManifest {
    type V = ManifestV;

    open spec fn view(&self) -> ManifestV {
        ManifestV {
            app_id: self.app_id@,
            name: crate::metadata::opt_view(self.name),
            version: self.version@,
            installed_at: self.installed_at@,
            is_system: self.is_system,
            files: self.files.deep_view(),
        }
    }
}

pub open spec fn k_installed_at() -> Seq<u8> {
    ascii_seq("installed_at"@)
}

pub open spec fn k_is_system() -> Seq<u8> {
    ascii_seq("is_system"@)
}

pub open spec fn k_files() -> Seq<u8> {
    ascii_seq("files"@)
}

/// The canonical JSON text of a manifest: fixed field order, the optional
/// name omitted when absent.
pub open spec fn ser_manifest(v: ManifestV) -> Seq<u8> {
    seq![0x7bu8] + mem_key(k_app_id()) + jstr(v.app_id) + seg_opt_str(k_name(), v.name) + seg(
        k_version(),
        jstr(v.version),
    ) + seg(k_installed_at(), jstr(v.installed_at)) + seg(k_is_system(), jbool(v.is_system)) + seg(
        k_files(),
        jarr(v.files),
    ) + seq![0x7du8]
}

/// A `,"key":` member introducer at `i`: the position of its value.
pub open spec fn mani_member_at(s: Seq<u8>, i: int, key: Seq<u8>) -> Option<int> {
    if !(0 <= i && i < s.len() && s[i] == 0x2c) {
        None
    } else {
        match sp_str(s, i + 1) {
            None => None,
            Some((k, j)) => if k == key && j < s.len() && s[j] == 0x3a {
                Some(j + 1)
            } else {
                None
            },
        }
    }
}

/// Parses the manifest members from the version member on.
pub open spec fn sp_mani_rest(
    s: Seq<u8>,
    i: int,
    aid: Seq<u8>,
    name: Option<Seq<u8>>,
) -> Option<ManifestV> {
    match sp_str(s, i) {
        None => None,
        Some((ver, e2)) => match mani_member_at(s, e2, k_installed_at()) {
            None => None,
            Some(p3) => match sp_str(s, p3) {
                None => None,
                Some((ts, e3)) => match mani_member_at(s, e3, k_is_system()) {
                    None => None,
                    Some(p4) => match sp_bool(s, p4) {
                        None => None,
                        Some((sys, e4)) => match mani_member_at(s, e4, k_files()) {
                            None => None,
                            Some(p5) => match sp_arr(s, p5) {
                                None => None,
                                Some((fs, e5)) => if e5 + 1 == s.len() && e5 < s.len() && s[e5]
                                    == 0x7d {
                                    Some(
                                        ManifestV {
                                            app_id: aid,
                                            name,
                                            version: ver,
                                            installed_at: ts,
                                            is_system: sys,
                                            files: fs,
                                        },
                                    )
                                } else {
                                    None
                                },
                            },
                        },
                    },
                },
            },
        },
    }
}

/// Parses a whole canonical manifest text.
pub open spec fn sp_manifest(s: Seq<u8>) -> Option<ManifestV> {
    if !(s.len() >= 1 && s[0] == 0x7b) {
        None
    } else {
        match sp_str(s, 1) {
            None => None,
            Some((key0, j0)) => {
                if !(key0 == k_app_id() && j0 < s.len() && s[j0] == 0x3a) {
                    None
                } else {
                    match sp_str(s, j0 + 1) {
                        None => None,
                        Some((aid, e0)) => {
                            match sp_str(s, e0 + 1) {
                                None => None,
                                Some((key1, j1)) => {
                                    if !(0 <= e0 && e0 < s.len() && s[e0] == 0x2c && j1 < s.len()
                                        && s[j1] == 0x3a) {
                                        None
                                    } else if key1 == k_name() {
                                        match sp_str(s, j1 + 1) {
                                            None => None,
                                            Some((nm, e1)) => match mani_member_at(
                                                s,
                                                e1,
                                                k_version(),
                                            ) {
                                                None => None,
                                                Some(p2) => sp_mani_rest(s, p2, aid, Some(nm)),
                                            },
                                        }
                                    } else if key1 == k_version() {
                                        sp_mani_rest(s, j1 + 1, aid, None)
                                    } else {
                                        None
                                    }
                                },
                            }
                        },
                    }
                }
            },
        }
    }
}

impl InstallManifest {
    /// The canonical JSON text of this manifest.
    pub fn serialize(&self) -> (r: Vec<u8>)
        ensures
            r@ == ser_manifest(self@),
    {
        proof {
            reveal_strlit("{\"app_id\":");
            reveal_strlit(",\"name\":");
            reveal_strlit(",\"version\":");
            reveal_strlit(",\"installed_at\":");
            reveal_strlit(",\"is_system\":");
            reveal_strlit(",\"files\":");
            reveal_strlit("app_id");
            reveal_strlit("name");
            reveal_strlit("version");
            reveal_strlit("installed_at");
            reveal_strlit("is_system");
            reveal_strlit("files");
            assert(vstd::string::is_ascii("{\"app_id\":") && vstd::string::is_ascii(",\"name\":")
                && vstd::string::is_ascii(",\"version\":") && vstd::string::is_ascii(
                ",\"installed_at\":",
            ) && vstd::string::is_ascii(",\"is_system\":") && vstd::string::is_ascii(
                ",\"files\":",
            ));
            assert(ascii_seq("{\"app_id\":"@) =~= seq![0x7bu8] + mem_key(k_app_id()));
            assert(ascii_seq(",\"name\":"@) =~= seq![0x2cu8] + mem_key(k_name()));
            assert(ascii_seq(",\"version\":"@) =~= seq![0x2cu8] + mem_key(k_version()));
            assert(ascii_seq(",\"installed_at\":"@) =~= seq![0x2cu8] + mem_key(k_installed_at()));
            assert(ascii_seq(",\"is_system\":"@) =~= seq![0x2cu8] + mem_key(k_is_system()));
            assert(ascii_seq(",\"files\":"@) =~= seq![0x2cu8] + mem_key(k_files()));
        }
        let mut out: Vec<u8> = Vec::new();
        emit_lit(&mut out, "{\"app_id\":");
        emit_jstr(&mut out, &self.app_id);
        if let Some(nm) = &self.name {
            emit_lit(&mut out, ",\"name\":");
            emit_jstr(&mut out, nm);
        }
        emit_lit(&mut out, ",\"version\":");
        emit_jstr(&mut out, &self.version);
        emit_lit(&mut out, ",\"installed_at\":");
        emit_jstr(&mut out, &self.installed_at);
        emit_lit(&mut out, ",\"is_system\":");
        if self.is_system {
            proof {
                reveal_strlit("true");
                assert(vstd::string::is_ascii("true"));
            }
            emit_lit(&mut out, "true");
        } else {
            proof {
                reveal_strlit("false");
                assert(vstd::string::is_ascii("false"));
            }
            emit_lit(&mut out, "false");
        }
        emit_lit(&mut out, ",\"files\":");
        emit_jarr(&mut out, &self.files);
        out.push(0x7d);
        proof {
            assert(out@ =~= ser_manifest(self@));
        }
        out
    }
}

/// Expects `,"key":` at `i` and hands back the value position.
fn expect_member(s: &Vec<u8>, i: usize, lit: &str) -> (r: Option<usize>)
    requires
        vstd::string::is_ascii(lit),
    ensures
        match r {
            Some(p) => mani_member_at(s@, i as int, ascii_seq(lit@)) == Some(p as int) && i < p
                <= s@.len(),
            None => mani_member_at(s@, i as int, ascii_seq(lit@)) is None,
        },
{
    let n = s.len();
    if !(i < n && s[i] == 0x2c) {
        return None;
    }
    let (k, j) = match parse_jstr(s, i + 1) {
        Ok(x) => x,
        Err(_) => {
            return None;
        },
    };
    if key_is(&k, lit) && j < n && s[j] == 0x3a {
        Some(j + 1)
    } else {
        None
    }
}

/// Parses a canonical manifest text, the whole of `s`.
#[verifier::rlimit(100)]
pub fn parse_manifest(s: &Vec<u8>) -> (r: Result<InstallManifest, LxeError>)
    ensures
        match r {
            Ok(m) => sp_manifest(s@) == Some(m@),
            Err(e) => sp_manifest(s@) is None && e == LxeError::MetadataParseError,
        },
{
    proof {
        reveal_strlit("app_id");
        reveal_strlit("name");
        reveal_strlit("version");
        reveal_strlit("installed_at");
        reveal_strlit("is_system");
        reveal_strlit("files");
        assert(vstd::string::is_ascii("app_id") && vstd::string::is_ascii("name")
            && vstd::string::is_ascii("version") && vstd::string::is_ascii("installed_at")
            && vstd::string::is_ascii("is_system") && vstd::string::is_ascii("files"));
    }
    let n = s.len();
    if !(n >= 1 && s[0] == 0x7b) {
        return Err(LxeError::MetadataParseError);
    }
    let (key0, j0) = match parse_jstr(s, 1) {
        Ok(x) => x,
        Err(_) => {
            return Err(LxeError::MetadataParseError);
        },
    };
    if !(key_is(&key0, "app_id") && j0 < n && s[j0] == 0x3a) {
        return Err(LxeError::MetadataParseError);
    }
    let (aid, e0) = match parse_jstr(s, j0 + 1) {
        Ok(x) => x,
        Err(_) => {
            return Err(LxeError::MetadataParseError);
        },
    };
    if !(e0 < n && s[e0] == 0x2c) {
        return Err(LxeError::MetadataParseError);
    }
    let (key1, j1) = match parse_jstr(s, e0 + 1) {
        Ok(x) => x,
        Err(_) => {
            return Err(LxeError::MetadataParseError);
        },
    };
    if !(j1 < n && s[j1] == 0x3a) {
        return Err(LxeError::MetadataParseError);
    }
    let name: Option<Vec<u8>>;
    let vpos: usize;
    if key_is(&key1, "name") {
        let (nm, e1) = match parse_jstr(s, j1 + 1) {
            Ok(x) => x,
            Err(_) => {
                return Err(LxeError::MetadataParseError);
            },
        };
        let p2 = match expect_member(s, e1, "version") {
            Some(p) => p,
            None => {
                return Err(LxeError::MetadataParseError);
            },
        };
        name = Some(nm);
        vpos = p2;
    } else if key_is(&key1, "version") {
        name = None;
        vpos = j1 + 1;
    } else {
        return Err(LxeError::MetadataParseError);
    }
    parse_mani_rest(s, vpos, aid, name)
}

} // verus!

verus! {

/// Parses the members from the version value on and finishes the manifest.
#[verifier::rlimit(100)]
fn parse_mani_rest(s: &Vec<u8>, vpos: usize, aid: Vec<u8>, name: Option<Vec<u8>>) -> (r: Result<
    InstallManifest,
    LxeError,
>)
    ensures
        match r {
            Ok(m) => sp_mani_rest(s@, vpos as int, aid@, crate::metadata::opt_view(name)) == Some(
                m@,
            ),
            Err(e) => sp_mani_rest(s@, vpos as int, aid@, crate::metadata::opt_view(name)) is None
                && e == LxeError::MetadataParseError,
        },
{
    proof {
        reveal_strlit("installed_at");
        reveal_strlit("is_system");
        reveal_strlit("files");
        assert(vstd::string::is_ascii("installed_at") && vstd::string::is_ascii("is_system")
            && vstd::string::is_ascii("files"));
    }
    let n = s.len();
    let (ver, e2) = match parse_jstr(s, vpos) {
        Ok(x) => x,
        Err(_) => {
            return Err(LxeError::MetadataParseError);
        },
    };
    let p3 = match expect_member(s, e2, "installed_at") {
        Some(p) => p,
        None => {
            return Err(LxeError::MetadataParseError);
        },
    };
    let (ts, e3) = match parse_jstr(s, p3) {
        Ok(x) => x,
        Err(_) => {
            return Err(LxeError::MetadataParseError);
        },
    };
    let p4 = match expect_member(s, e3, "is_system") {
        Some(p) => p,
        None => {
            return Err(LxeError::MetadataParseError);
        },
    };
    let (sys, e4) = match parse_jbool(s, p4) {
        Ok(x) => x,
        Err(_) => {
            return Err(LxeError::MetadataParseError);
        },
    };
    let p5 = match expect_member(s, e4, "files") {
        Some(p) => p,
        None => {
            return Err(LxeError::MetadataParseError);
        },
    };
    let (fs, e5) = match parse_jarr(s, p5) {
        Ok(x) => x,
        Err(_) => {
            return Err(LxeError::MetadataParseError);
        },
    };
    if !(e5 < n && n - e5 == 1 && s[e5] == 0x7d) {
        return Err(LxeError::MetadataParseError);
    }
    Ok(
        InstallManifest {
            app_id: aid,
            name,
            version: ver,
            installed_at: ts,
            is_system: sys,
            files: fs,
        },
    )
}

} // verus!

verus! {

proof fn lemma_mani_keys()
    ensures
        crate::json::plain(k_installed_at()),
        crate::json::plain(k_is_system()),
        crate::json::plain(k_files()),
        k_installed_at().len() == 12,
        k_is_system().len() == 9,
        k_files().len() == 5,
{
    reveal_strlit("installed_at");
    reveal_strlit("is_system");
    reveal_strlit("files");
}

/// Reading back the members from the version value on recovers them.
#[verifier::spinoff_prover]
#[verifier::rlimit(100)]
proof fn lemma_sp_mani_rest_rt(s: Seq<u8>, i: int, v: ManifestV)
    requires
        0 <= i,
        i + jstr(v.version).len() + seg(k_installed_at(), jstr(v.installed_at)).len() + seg(
            k_is_system(),
            jbool(v.is_system),
        ).len() + seg(k_files(), jarr(v.files)).len() + 1 == s.len(),
        s.subrange(i, s.len() as int) == jstr(v.version) + (seg(
            k_installed_at(),
            jstr(v.installed_at),
        ) + (seg(k_is_system(), jbool(v.is_system)) + (seg(k_files(), jarr(v.files)) + seq![
            0x7du8,
        ]))),
    ensures
        sp_mani_rest(s, i, v.app_id, v.name) == Some(v),
{
    lemma_mani_keys();
    let seg2 = seg(k_installed_at(), jstr(v.installed_at));
    let seg3 = seg(k_is_system(), jbool(v.is_system));
    let seg4 = seg(k_files(), jarr(v.files));
    let r1 = seg2 + (seg3 + (seg4 + seq![0x7du8]));
    lemma_split_at(s, i, jstr(v.version), r1);
    lemma_sp_str_rt(s, i, v.version);
    let e2 = i + jstr(v.version).len() as int;
    assert(r1 =~= seq![0x2cu8] + mem_key(k_installed_at()) + jstr(v.installed_at) + (seg3 + (seg4
        + seq![0x7du8])));
    lemma_member_common(s, e2, k_installed_at(), jstr(v.installed_at), seg3 + (seg4 + seq![
        0x7du8,
    ]));
    let p3 = e2 + 4 + k_installed_at().len() as int;
    lemma_sp_str_rt(s, p3, v.installed_at);
    assert(mani_member_at(s, e2, k_installed_at()) == Some(p3));
    let e3 = p3 + jstr(v.installed_at).len() as int;
    assert(seg3 + (seg4 + seq![0x7du8]) =~= seq![0x2cu8] + mem_key(k_is_system()) + jbool(
        v.is_system,
    ) + (seg4 + seq![0x7du8]));
    lemma_member_common(s, e3, k_is_system(), jbool(v.is_system), seg4 + seq![0x7du8]);
    let p4 = e3 + 4 + k_is_system().len() as int;
    crate::json::lemma_sp_bool_rt(s, p4, v.is_system);
    assert(mani_member_at(s, e3, k_is_system()) == Some(p4));
    let e4 = p4 + jbool(v.is_system).len() as int;
    assert(seg4 + seq![0x7du8] =~= seq![0x2cu8] + mem_key(k_files()) + jarr(v.files) + seq![
        0x7du8,
    ]);
    lemma_member_common(s, e4, k_files(), jarr(v.files), seq![0x7du8]);
    let p5 = e4 + 4 + k_files().len() as int;
    lemma_sp_arr_rt(s, p5, v.files);
    assert(mani_member_at(s, e4, k_files()) == Some(p5));
    let e5 = p5 + jarr(v.files).len() as int;
    assert(s.subrange(e5, e5 + 1)[0] == seq![0x7du8][0]);
    assert(s[e5] == 0x7d);
    assert(e5 + 1 == s.len());
}

/// The tail of the canonical manifest text after the `app_id` member.
pub open spec fn mani_rest1(v: ManifestV) -> Seq<u8> {
    seg_opt_str(k_name(), v.name) + (seg(k_version(), jstr(v.version)) + (seg(
        k_installed_at(),
        jstr(v.installed_at),
    ) + (seg(k_is_system(), jbool(v.is_system)) + (seg(k_files(), jarr(v.files)) + seq![
        0x7du8,
    ]))))
}

#[verifier::spinoff_prover]
#[verifier::rlimit(100)]
proof fn lemma_mani_rt_case(s: Seq<u8>, j0: int, e0: int, v: ManifestV)
    requires
        s.len() >= 1,
        s[0] == 0x7b,
        sp_str(s, 1) == Some((k_app_id(), j0)),
        0 < j0 < s.len(),
        s[j0] == 0x3a,
        sp_str(s, j0 + 1) == Some((v.app_id, e0)),
        0 < e0,
        e0 + mani_rest1(v).len() == s.len(),
        s.subrange(e0, s.len() as int) == mani_rest1(v),
    ensures
        sp_manifest(s) == Some(v),
{
    crate::metadata::lemma_meta_keys();
    lemma_mani_keys();
    let tail5 = seg(k_version(), jstr(v.version)) + (seg(k_installed_at(), jstr(v.installed_at))
        + (seg(k_is_system(), jbool(v.is_system)) + (seg(k_files(), jarr(v.files)) + seq![
        0x7du8,
    ])));
    let rest2 = seg(k_installed_at(), jstr(v.installed_at)) + (seg(
        k_is_system(),
        jbool(v.is_system),
    ) + (seg(k_files(), jarr(v.files)) + seq![0x7du8]));
    if v.name is Some {
        let nm = v.name->Some_0;
        assert(mani_rest1(v) =~= seq![0x2cu8] + mem_key(k_name()) + jstr(nm) + tail5);
        lemma_member_common(s, e0, k_name(), jstr(nm), tail5);
        let p1 = e0 + 4 + k_name().len() as int;
        lemma_sp_str_rt(s, p1, nm);
        let e1 = p1 + jstr(nm).len() as int;
        assert(tail5 =~= seq![0x2cu8] + mem_key(k_version()) + jstr(v.version) + rest2);
        lemma_member_common(s, e1, k_version(), jstr(v.version), rest2);
        let p2 = e1 + 4 + k_version().len() as int;
        assert(mani_member_at(s, e1, k_version()) == Some(p2));
        lemma_join_at(s, p2, jstr(v.version), rest2);
        lemma_sp_mani_rest_rt(s, p2, v);
    } else {
        assert(seg_opt_str(k_name(), v.name) =~= Seq::<u8>::empty());
        assert(mani_rest1(v) =~= seq![0x2cu8] + mem_key(k_version()) + jstr(v.version) + rest2);
        lemma_member_common(s, e0, k_version(), jstr(v.version), rest2);
        let p1 = e0 + 4 + k_version().len() as int;
        lemma_join_at(s, p1, jstr(v.version), rest2);
        lemma_sp_mani_rest_rt(s, p1, v);
        assert(k_version() != k_name());
    }
}

/// Round trip: parsing the canonical serialization of any manifest recovers
/// that manifest exactly.
#[verifier::spinoff_prover]
#[verifier::rlimit(100)]
pub proof fn lemma_manifest_round_trip(v: ManifestV)
    ensures
        sp_manifest(ser_manifest(v)) == Some(v),
{
    crate::metadata::lemma_meta_keys();
    let s = ser_manifest(v);
    lemma_esc_plain(k_app_id());
    assert(jstr(k_app_id()) =~= seq![0x22u8] + k_app_id() + seq![0x22u8]);
    assert(s =~= seq![0x7bu8] + (jstr(k_app_id()) + (seq![0x3au8] + (jstr(v.app_id) + mani_rest1(
        v,
    )))));
    assert(s.subrange(0, s.len() as int) =~= s);
    lemma_split_at(s, 0, seq![0x7bu8], jstr(k_app_id()) + (seq![0x3au8] + (jstr(v.app_id)
        + mani_rest1(v))));
    assert(s.subrange(0, 1)[0] == seq![0x7bu8][0]);
    lemma_split_at(s, 1, jstr(k_app_id()), seq![0x3au8] + (jstr(v.app_id) + mani_rest1(v)));
    lemma_sp_str_rt(s, 1, k_app_id());
    let j0 = 1 + jstr(k_app_id()).len() as int;
    lemma_split_at(s, j0, seq![0x3au8], jstr(v.app_id) + mani_rest1(v));
    assert(s.subrange(j0, j0 + 1)[0] == seq![0x3au8][0]);
    lemma_split_at(s, j0 + 1, jstr(v.app_id), mani_rest1(v));
    lemma_sp_str_rt(s, j0 + 1, v.app_id);
    let e0 = j0 + 1 + jstr(v.app_id).len() as int;
    lemma_mani_rt_case(s, j0, e0, v);
}

} // verus!
