//! The package metadata: schema, canonical serialization, strict parsing and
//! the signable projection.
//!
//! All text is carried as UTF-8 bytes (`Vec<u8>`). The serializer emits one
//! canonical compact JSON encoding with a fixed field order and without
//! `null` placeholders for absent optionals; the parser accepts that shape,
//! tolerates unknown members between known ones, and checks required fields.

use vstd::prelude::*;

use crate::LxeError;
use crate::json::{
    ascii_seq, jstr, dec_u64, jbool, jarr, sp_str, sp_u64, sp_bool, sp_arr, sp_skip, esc,
    emit_lit, emit_jstr, emit_u64, emit_jarr, parse_jstr, parse_ju64, parse_jbool, parse_jarr,
    skip_value, lemma_split_at, lemma_sp_str_rt, lemma_sp_u64_rt, lemma_sp_bool_rt,
    lemma_sp_arr_rt, plain, lemma_esc_plain, key_is, is_digit,
};

verus! {

/// The metadata format version this crate writes.
pub const METADATA_VERSION: u8 = 1;

/// Ceiling on the nesting depth of unknown members: the parser ignores
/// unknown fields, as the format promises, but only to this depth of nested
/// arrays and objects inside them; an unknown member nested deeper is
/// refused as unparseable. Known members are unaffected.
pub const SKIP_DEPTH: u32 = 8;

/// Installer-wizard cosmetic knobs carried in the package; never signed.
pub struct InstallerMetadata {
    pub show_launch: bool,
    pub allow_custom_dir: bool,
    pub welcome_title: Option<Vec<u8>>,
    pub welcome_text: Option<Vec<u8>>,
    pub finish_title: Option<Vec<u8>>,
    pub finish_text: Option<Vec<u8>>,
    pub accent_color: Option<Vec<u8>>,
    pub theme: Option<Vec<u8>>,
    pub license_text: Option<Vec<u8>>,
    pub banner: Option<Vec<u8>>,
    pub logo: Option<Vec<u8>>,
}

/// The package metadata embedded behind the header magic.
pub struct LxeMetadata {
    pub format_version: u8,
    pub app_id: Vec<u8>,
    pub name: Vec<u8>,
    pub version: Vec<u8>,
    pub arch: Vec<u8>,
    pub install_size: u64,
    pub exec_path: Vec<u8>,
    pub icon: Option<Vec<u8>>,
    pub categories: Vec<Vec<u8>>,
    pub description: Option<Vec<u8>>,
    pub payload_checksum: Vec<u8>,
    pub min_runtime_version: Option<Vec<u8>>,
    pub license: Option<Vec<u8>>,
    pub homepage: Option<Vec<u8>>,
    pub exec_args: Option<Vec<u8>>,
    pub terminal: bool,
    pub wm_class: Option<Vec<u8>>,
    pub installer: Option<InstallerMetadata>,
    pub public_key: Option<Vec<u8>>,
    pub signature: Option<Vec<u8>>,
}

/// Mathematical view of the installer block.
pub ghost struct InstV {
    pub show_launch: bool,
    pub allow_custom_dir: bool,
    pub welcome_title: Option<Seq<u8>>,
    pub welcome_text: Option<Seq<u8>>,
    pub finish_title: Option<Seq<u8>>,
    pub finish_text: Option<Seq<u8>>,
    pub accent_color: Option<Seq<u8>>,
    pub theme: Option<Seq<u8>>,
    pub license_text: Option<Seq<u8>>,
    pub banner: Option<Seq<u8>>,
    pub logo: Option<Seq<u8>>,
}

/// Mathematical view of the metadata.
pub ghost struct MetaV {
    pub format_version: u8,
    pub app_id: Seq<u8>,
    pub name: Seq<u8>,
    pub version: Seq<u8>,
    pub arch: Seq<u8>,
    pub install_size: u64,
    pub exec_path: Seq<u8>,
    pub icon: Option<Seq<u8>>,
    pub categories: Seq<Seq<u8>>,
    pub description: Option<Seq<u8>>,
    pub payload_checksum: Seq<u8>,
    pub min_runtime_version: Option<Seq<u8>>,
    pub license: Option<Seq<u8>>,
    pub homepage: Option<Seq<u8>>,
    pub exec_args: Option<Seq<u8>>,
    pub terminal: bool,
    pub wm_class: Option<Seq<u8>>,
    pub installer: Option<InstV>,
    pub public_key: Option<Seq<u8>>,
    pub signature: Option<Seq<u8>>,
}

pub open spec fn opt_view(o: Option<Vec<u8>>) -> Option<Seq<u8>> {
    match o {
        Some(v) => Some(v@),
        None => None,
    }
}

impl View for InstallerMetadata {
    type V = InstV;

    open spec fn view(&self) -> InstV {
        InstV {
            show_launch: self.show_launch,
            allow_custom_dir: self.allow_custom_dir,
            welcome_title: opt_view(self.welcome_title),
            welcome_text: opt_view(self.welcome_text),
            finish_title: opt_view(self.finish_title),
            finish_text: opt_view(self.finish_text),
            accent_color: opt_view(self.accent_color),
            theme: opt_view(self.theme),
            license_text: opt_view(self.license_text),
            banner: opt_view(self.banner),
            logo: opt_view(self.logo),
        }
    }
}

impl View for LxeMetadata {
    type V = MetaV;

    open spec fn view(&self) -> MetaV {
        MetaV {
            format_version: self.format_version,
            app_id: self.app_id@,
            name: self.name@,
            version: self.version@,
            arch: self.arch@,
            install_size: self.install_size,
            exec_path: self.exec_path@,
            icon: opt_view(self.icon),
            categories: self.categories.deep_view(),
            description: opt_view(self.description),
            payload_checksum: self.payload_checksum@,
            min_runtime_version: opt_view(self.min_runtime_version),
            license: opt_view(self.license),
            homepage: opt_view(self.homepage),
            exec_args: opt_view(self.exec_args),
            terminal: self.terminal,
            wm_class: opt_view(self.wm_class),
            installer: match self.installer {
                Some(iv) => Some(iv@),
                None => None,
            },
            public_key: opt_view(self.public_key),
            signature: opt_view(self.signature),
        }
    }
}

// --- canonical serialization: building blocks ---

/// `"key":` for a raw ASCII key.
pub open spec fn mem_key(key: Seq<u8>) -> Seq<u8> {
    seq![0x22u8] + key + seq![0x22u8, 0x3au8]
}

/// A member preceded by its separating comma.
pub open spec fn seg(key: Seq<u8>, val: Seq<u8>) -> Seq<u8> {
    seq![0x2cu8] + mem_key(key) + val
}

/// An optional string member: absent optionals are omitted entirely.
pub open spec fn seg_opt_str(key: Seq<u8>, o: Option<Seq<u8>>) -> Seq<u8> {
    match o {
        Some(v) => seg(key, jstr(v)),
        None => Seq::empty(),
    }
}

// --- installer block ---

pub open spec fn k_show_launch() -> Seq<u8> {
    ascii_seq("show_launch"@)
}

pub open spec fn k_allow_custom_dir() -> Seq<u8> {
    ascii_seq("allow_custom_dir"@)
}

pub open spec fn k_welcome_title() -> Seq<u8> {
    ascii_seq("welcome_title"@)
}

pub open spec fn k_welcome_text() -> Seq<u8> {
    ascii_seq("welcome_text"@)
}

pub open spec fn k_finish_title() -> Seq<u8> {
    ascii_seq("finish_title"@)
}

pub open spec fn k_finish_text() -> Seq<u8> {
    ascii_seq("finish_text"@)
}

pub open spec fn k_accent_color() -> Seq<u8> {
    ascii_seq("accent_color"@)
}

pub open spec fn k_theme() -> Seq<u8> {
    ascii_seq("theme"@)
}

pub open spec fn k_license_text() -> Seq<u8> {
    ascii_seq("license_text"@)
}

pub open spec fn k_banner() -> Seq<u8> {
    ascii_seq("banner"@)
}

pub open spec fn k_logo() -> Seq<u8> {
    ascii_seq("logo"@)
}

/// The members of the installer block from slot `k` on, plus the closing
/// brace. `show_launch` leads and is always present; the optional text knobs
/// follow in a fixed order.
pub open spec fn ser_inst_tail(k: int, v: InstV) -> Seq<u8>
    decreases 11 - k,
{
    if k >= 11 {
        seq![0x7du8]
    } else {
        let sg = if k == 1 {
            seg(k_allow_custom_dir(), jbool(v.allow_custom_dir))
        } else if k == 2 {
            seg_opt_str(k_welcome_title(), v.welcome_title)
        } else if k == 3 {
            seg_opt_str(k_welcome_text(), v.welcome_text)
        } else if k == 4 {
            seg_opt_str(k_finish_title(), v.finish_title)
        } else if k == 5 {
            seg_opt_str(k_finish_text(), v.finish_text)
        } else if k == 6 {
            seg_opt_str(k_accent_color(), v.accent_color)
        } else if k == 7 {
            seg_opt_str(k_theme(), v.theme)
        } else if k == 8 {
            seg_opt_str(k_license_text(), v.license_text)
        } else if k == 9 {
            seg_opt_str(k_banner(), v.banner)
        } else {
            seg_opt_str(k_logo(), v.logo)
        };
        sg + ser_inst_tail(k + 1, v)
    }
}

/// The canonical JSON text of the installer block.
pub open spec fn ser_inst(v: InstV) -> Seq<u8> {
    seq![0x7bu8] + mem_key(k_show_launch()) + jbool(v.show_launch) + ser_inst_tail(1, v)
}

// --- top-level metadata ---

pub open spec fn k_format_version() -> Seq<u8> {
    ascii_seq("format_version"@)
}

pub open spec fn k_app_id() -> Seq<u8> {
    ascii_seq("app_id"@)
}

pub open spec fn k_name() -> Seq<u8> {
    ascii_seq("name"@)
}

pub open spec fn k_version() -> Seq<u8> {
    ascii_seq("version"@)
}

pub open spec fn k_arch() -> Seq<u8> {
    ascii_seq("arch"@)
}

pub open spec fn k_install_size() -> Seq<u8> {
    ascii_seq("install_size"@)
}

pub open spec fn k_exec() -> Seq<u8> {
    ascii_seq("exec"@)
}

pub open spec fn k_icon() -> Seq<u8> {
    ascii_seq("icon"@)
}

pub open spec fn k_categories() -> Seq<u8> {
    ascii_seq("categories"@)
}

pub open spec fn k_description() -> Seq<u8> {
    ascii_seq("description"@)
}

pub open spec fn k_payload_checksum() -> Seq<u8> {
    ascii_seq("payload_checksum"@)
}

pub open spec fn k_min_runtime_version() -> Seq<u8> {
    ascii_seq("min_runtime_version"@)
}

pub open spec fn k_license() -> Seq<u8> {
    ascii_seq("license"@)
}

pub open spec fn k_homepage() -> Seq<u8> {
    ascii_seq("homepage"@)
}

pub open spec fn k_exec_args() -> Seq<u8> {
    ascii_seq("exec_args"@)
}

pub open spec fn k_terminal() -> Seq<u8> {
    ascii_seq("terminal"@)
}

pub open spec fn k_wm_class() -> Seq<u8> {
    ascii_seq("wm_class"@)
}

pub open spec fn k_installer() -> Seq<u8> {
    ascii_seq("installer"@)
}

pub open spec fn k_public_key() -> Seq<u8> {
    ascii_seq("public_key"@)
}

pub open spec fn k_signature() -> Seq<u8> {
    ascii_seq("signature"@)
}

/// The member of the metadata at slot `k`, with its leading comma; an
/// absent optional contributes nothing. The slot order is the canonical
/// field order of the format.
pub open spec fn meta_seg(k: int, v: MetaV) -> Seq<u8> {
    if k == 1 {
        seg(k_app_id(), jstr(v.app_id))
    } else if k == 2 {
        seg(k_name(), jstr(v.name))
    } else if k == 3 {
        seg(k_version(), jstr(v.version))
    } else if k == 4 {
        seg(k_arch(), jstr(v.arch))
    } else if k == 5 {
        seg(k_install_size(), dec_u64(v.install_size))
    } else if k == 6 {
        seg(k_exec(), jstr(v.exec_path))
    } else if k == 7 {
        seg_opt_str(k_icon(), v.icon)
    } else if k == 8 {
        seg(k_categories(), jarr(v.categories))
    } else if k == 9 {
        seg_opt_str(k_description(), v.description)
    } else if k == 10 {
        seg(k_payload_checksum(), jstr(v.payload_checksum))
    } else if k == 11 {
        seg_opt_str(k_min_runtime_version(), v.min_runtime_version)
    } else if k == 12 {
        seg_opt_str(k_license(), v.license)
    } else if k == 13 {
        seg_opt_str(k_homepage(), v.homepage)
    } else if k == 14 {
        seg_opt_str(k_exec_args(), v.exec_args)
    } else if k == 15 {
        seg(k_terminal(), jbool(v.terminal))
    } else if k == 16 {
        seg_opt_str(k_wm_class(), v.wm_class)
    } else if k == 17 {
        match v.installer {
            Some(iv) => seg(k_installer(), ser_inst(iv)),
            None => Seq::empty(),
        }
    } else if k == 18 {
        seg_opt_str(k_public_key(), v.public_key)
    } else {
        seg_opt_str(k_signature(), v.signature)
    }
}

/// The members of the metadata from slot `k` on, plus the closing brace.
pub open spec fn ser_meta_tail(k: int, v: MetaV) -> Seq<u8>
    decreases 20 - k,
{
    if k >= 20 {
        seq![0x7du8]
    } else {
        meta_seg(k, v) + ser_meta_tail(k + 1, v)
    }
}

/// The members of the signable projection from slot `k` on, plus the closing
/// brace: the same members in the same order, cut after `terminal`.
pub open spec fn ser_sig_tail(k: int, v: MetaV) -> Seq<u8>
    decreases 16 - k,
{
    if k >= 16 {
        seq![0x7du8]
    } else {
        meta_seg(k, v) + ser_sig_tail(k + 1, v)
    }
}

/// The canonical signable bytes of the metadata: the fixed-order projection
/// without `wm_class`, `installer`, `public_key` or `signature`.
pub open spec fn ser_signable(v: MetaV) -> Seq<u8> {
    seq![0x7bu8] + mem_key(k_format_version()) + dec_u64(v.format_version as u64) + ser_sig_tail(
        1,
        v,
    )
}

/// The canonical JSON text of the whole metadata object.
pub open spec fn ser_meta(v: MetaV) -> Seq<u8> {
    seq![0x7bu8] + mem_key(k_format_version()) + dec_u64(v.format_version as u64) + ser_meta_tail(
        1,
        v,
    )
}

} // verus!

verus! {

// --- executable serialization ---

/// Appends `,"key":` for one member.
fn emit_member_prefix(out: &mut Vec<u8>, lit: &str, Ghost(key): Ghost<Seq<u8>>)
    requires
        vstd::string::is_ascii(lit),
        ascii_seq(lit@) == seq![0x2cu8] + mem_key(key),
    ensures
        final(out)@ == old(out)@ + (seq![0x2cu8] + mem_key(key)),
{
    emit_lit(out, lit);
}

/// Appends the installer members from slot `k` on and the closing brace.
#[verifier::rlimit(100)]
fn emit_inst_tail(out: &mut Vec<u8>, m: &InstallerMetadata, k: usize)
    requires
        1 <= k <= 11,
    ensures
        final(out)@ == old(out)@ + ser_inst_tail(k as int, m@),
    decreases 11 - k,
{
    let ghost pre = out@;
    if k == 1 {
        proof {
            reveal_strlit(",\"allow_custom_dir\":");
            reveal_strlit("allow_custom_dir");
            assert(vstd::string::is_ascii(",\"allow_custom_dir\":"));
            assert(ascii_seq(",\"allow_custom_dir\":"@) =~= seq![0x2cu8] + mem_key(
                k_allow_custom_dir(),
            ));
        }
        emit_member_prefix(out, ",\"allow_custom_dir\":", Ghost(k_allow_custom_dir()));
        if m.allow_custom_dir {
            proof {
                reveal_strlit("true");
                assert(vstd::string::is_ascii("true"));
            }
            emit_lit(out, "true");
            proof {
                assert(out@ =~= pre + seg(k_allow_custom_dir(), jbool(m@.allow_custom_dir)));
            }
        } else {
            proof {
                reveal_strlit("false");
                assert(vstd::string::is_ascii("false"));
            }
            emit_lit(out, "false");
            proof {
                assert(out@ =~= pre + seg(k_allow_custom_dir(), jbool(m@.allow_custom_dir)));
            }
        }
    } else if k == 2 {
        if let Some(x) = &m.welcome_title {
            proof {
                reveal_strlit(",\"welcome_title\":");
                reveal_strlit("welcome_title");
                assert(vstd::string::is_ascii(",\"welcome_title\":"));
                assert(ascii_seq(",\"welcome_title\":"@) =~= seq![0x2cu8] + mem_key(
                    k_welcome_title(),
                ));
            }
            emit_member_prefix(out, ",\"welcome_title\":", Ghost(k_welcome_title()));
            emit_jstr(out, x);
            proof {
                assert(out@ =~= pre + seg_opt_str(k_welcome_title(), m@.welcome_title));
            }
        }
    } else if k == 3 {
        if let Some(x) = &m.welcome_text {
            proof {
                reveal_strlit(",\"welcome_text\":");
                reveal_strlit("welcome_text");
                assert(vstd::string::is_ascii(",\"welcome_text\":"));
                assert(ascii_seq(",\"welcome_text\":"@) =~= seq![0x2cu8] + mem_key(
                    k_welcome_text(),
                ));
            }
            emit_member_prefix(out, ",\"welcome_text\":", Ghost(k_welcome_text()));
            emit_jstr(out, x);
            proof {
                assert(out@ =~= pre + seg_opt_str(k_welcome_text(), m@.welcome_text));
            }
        }
    } else if k == 4 {
        if let Some(x) = &m.finish_title {
            proof {
                reveal_strlit(",\"finish_title\":");
                reveal_strlit("finish_title");
                assert(vstd::string::is_ascii(",\"finish_title\":"));
                assert(ascii_seq(",\"finish_title\":"@) =~= seq![0x2cu8] + mem_key(
                    k_finish_title(),
                ));
            }
            emit_member_prefix(out, ",\"finish_title\":", Ghost(k_finish_title()));
            emit_jstr(out, x);
            proof {
                assert(out@ =~= pre + seg_opt_str(k_finish_title(), m@.finish_title));
            }
        }
    } else if k == 5 {
        if let Some(x) = &m.finish_text {
            proof {
                reveal_strlit(",\"finish_text\":");
                reveal_strlit("finish_text");
                assert(vstd::string::is_ascii(",\"finish_text\":"));
                assert(ascii_seq(",\"finish_text\":"@) =~= seq![0x2cu8] + mem_key(
                    k_finish_text(),
                ));
            }
            emit_member_prefix(out, ",\"finish_text\":", Ghost(k_finish_text()));
            emit_jstr(out, x);
            proof {
                assert(out@ =~= pre + seg_opt_str(k_finish_text(), m@.finish_text));
            }
        }
    } else if k == 6 {
        if let Some(x) = &m.accent_color {
            proof {
                reveal_strlit(",\"accent_color\":");
                reveal_strlit("accent_color");
                assert(vstd::string::is_ascii(",\"accent_color\":"));
                assert(ascii_seq(",\"accent_color\":"@) =~= seq![0x2cu8] + mem_key(
                    k_accent_color(),
                ));
            }
            emit_member_prefix(out, ",\"accent_color\":", Ghost(k_accent_color()));
            emit_jstr(out, x);
            proof {
                assert(out@ =~= pre + seg_opt_str(k_accent_color(), m@.accent_color));
            }
        }
    } else if k == 7 {
        if let Some(x) = &m.theme {
            proof {
                reveal_strlit(",\"theme\":");
                reveal_strlit("theme");
                assert(vstd::string::is_ascii(",\"theme\":"));
                assert(ascii_seq(",\"theme\":"@) =~= seq![0x2cu8] + mem_key(k_theme()));
            }
            emit_member_prefix(out, ",\"theme\":", Ghost(k_theme()));
            emit_jstr(out, x);
            proof {
                assert(out@ =~= pre + seg_opt_str(k_theme(), m@.theme));
            }
        }
    } else if k == 8 {
        if let Some(x) = &m.license_text {
            proof {
                reveal_strlit(",\"license_text\":");
                reveal_strlit("license_text");
                assert(vstd::string::is_ascii(",\"license_text\":"));
                assert(ascii_seq(",\"license_text\":"@) =~= seq![0x2cu8] + mem_key(
                    k_license_text(),
                ));
            }
            emit_member_prefix(out, ",\"license_text\":", Ghost(k_license_text()));
            emit_jstr(out, x);
            proof {
                assert(out@ =~= pre + seg_opt_str(k_license_text(), m@.license_text));
            }
        }
    } else if k == 9 {
        if let Some(x) = &m.banner {
            proof {
                reveal_strlit(",\"banner\":");
                reveal_strlit("banner");
                assert(vstd::string::is_ascii(",\"banner\":"));
                assert(ascii_seq(",\"banner\":"@) =~= seq![0x2cu8] + mem_key(k_banner()));
            }
            emit_member_prefix(out, ",\"banner\":", Ghost(k_banner()));
            emit_jstr(out, x);
            proof {
                assert(out@ =~= pre + seg_opt_str(k_banner(), m@.banner));
            }
        }
    } else if k == 10 {
        if let Some(x) = &m.logo {
            proof {
                reveal_strlit(",\"logo\":");
                reveal_strlit("logo");
                assert(vstd::string::is_ascii(",\"logo\":"));
                assert(ascii_seq(",\"logo\":"@) =~= seq![0x2cu8] + mem_key(k_logo()));
            }
            emit_member_prefix(out, ",\"logo\":", Ghost(k_logo()));
            emit_jstr(out, x);
            proof {
                assert(out@ =~= pre + seg_opt_str(k_logo(), m@.logo));
            }
        }
    } else {
        out.push(0x7d);
        proof {
            assert(out@ =~= pre + ser_inst_tail(11, m@));
        }
        return ;
    }
    emit_inst_tail(out, m, k + 1);
    proof {
        assert(out@ =~= old(out)@ + ser_inst_tail(k as int, m@));
    }
}

impl InstallerMetadata {
    /// The canonical JSON text of the installer block.
    pub fn serialize(&self) -> (r: Vec<u8>)
        ensures
            r@ == ser_inst(self@),
    {
        let mut out: Vec<u8> = Vec::new();
        proof {
            reveal_strlit("{\"show_launch\":");
            reveal_strlit("show_launch");
            assert(vstd::string::is_ascii("{\"show_launch\":"));
            assert(ascii_seq("{\"show_launch\":"@) =~= seq![0x7bu8] + mem_key(k_show_launch()));
        }
        emit_lit(&mut out, "{\"show_launch\":");
        if self.show_launch {
            proof {
                reveal_strlit("true");
                assert(vstd::string::is_ascii("true"));
            }
            emit_lit(&mut out, "true");
        } else {
            proof {
                reveal_strlit("false");
                assert(vstd::string::is_ascii("false"));
            }
            emit_lit(&mut out, "false");
        }
        emit_inst_tail(&mut out, self, 1);
        proof {
            assert(out@ =~= ser_inst(self@));
        }
        out
    }
}

} // verus!

verus! {

/// Appends the metadata member of slot `k`.
#[verifier::rlimit(100)]
fn emit_meta_seg(out: &mut Vec<u8>, m: &LxeMetadata, k: usize)
    requires
        1 <= k <= 19,
    ensures
        final(out)@ == old(out)@ + meta_seg(k as int, m@),
{
    let ghost pre = out@;
    if k == 1 {
        proof {
            reveal_strlit(",\"app_id\":");
            reveal_strlit("app_id");
            assert(vstd::string::is_ascii(",\"app_id\":"));
            assert(ascii_seq(",\"app_id\":"@) =~= seq![0x2cu8] + mem_key(k_app_id()));
        }
        emit_member_prefix(out, ",\"app_id\":", Ghost(k_app_id()));
        emit_jstr(out, &m.app_id);
        proof {
            assert(out@ =~= pre + meta_seg(1, m@));
        }
    } else if k == 2 {
        proof {
            reveal_strlit(",\"name\":");
            reveal_strlit("name");
            assert(vstd::string::is_ascii(",\"name\":"));
            assert(ascii_seq(",\"name\":"@) =~= seq![0x2cu8] + mem_key(k_name()));
        }
        emit_member_prefix(out, ",\"name\":", Ghost(k_name()));
        emit_jstr(out, &m.name);
        proof {
            assert(out@ =~= pre + meta_seg(2, m@));
        }
    } else if k == 3 {
        proof {
            reveal_strlit(",\"version\":");
            reveal_strlit("version");
            assert(vstd::string::is_ascii(",\"version\":"));
            assert(ascii_seq(",\"version\":"@) =~= seq![0x2cu8] + mem_key(k_version()));
        }
        emit_member_prefix(out, ",\"version\":", Ghost(k_version()));
        emit_jstr(out, &m.version);
        proof {
            assert(out@ =~= pre + meta_seg(3, m@));
        }
    } else if k == 4 {
        proof {
            reveal_strlit(",\"arch\":");
            reveal_strlit("arch");
            assert(vstd::string::is_ascii(",\"arch\":"));
            assert(ascii_seq(",\"arch\":"@) =~= seq![0x2cu8] + mem_key(k_arch()));
        }
        emit_member_prefix(out, ",\"arch\":", Ghost(k_arch()));
        emit_jstr(out, &m.arch);
        proof {
            assert(out@ =~= pre + meta_seg(4, m@));
        }
    } else if k == 5 {
        proof {
            reveal_strlit(",\"install_size\":");
            reveal_strlit("install_size");
            assert(vstd::string::is_ascii(",\"install_size\":"));
            assert(ascii_seq(",\"install_size\":"@) =~= seq![0x2cu8] + mem_key(k_install_size()));
        }
        emit_member_prefix(out, ",\"install_size\":", Ghost(k_install_size()));
        emit_u64(out, m.install_size);
        proof {
            assert(out@ =~= pre + meta_seg(5, m@));
        }
    } else if k == 6 {
        proof {
            reveal_strlit(",\"exec\":");
            reveal_strlit("exec");
            assert(vstd::string::is_ascii(",\"exec\":"));
            assert(ascii_seq(",\"exec\":"@) =~= seq![0x2cu8] + mem_key(k_exec()));
        }
        emit_member_prefix(out, ",\"exec\":", Ghost(k_exec()));
        emit_jstr(out, &m.exec_path);
        proof {
            assert(out@ =~= pre + meta_seg(6, m@));
        }
    } else if k == 7 {
        if let Some(x) = &m.icon {
            proof {
                reveal_strlit(",\"icon\":");
                reveal_strlit("icon");
                assert(vstd::string::is_ascii(",\"icon\":"));
                assert(ascii_seq(",\"icon\":"@) =~= seq![0x2cu8] + mem_key(k_icon()));
            }
            emit_member_prefix(out, ",\"icon\":", Ghost(k_icon()));
            emit_jstr(out, x);
            proof {
                assert(out@ =~= pre + meta_seg(7, m@));
            }
        }
    } else if k == 8 {
        proof {
            reveal_strlit(",\"categories\":");
            reveal_strlit("categories");
            assert(vstd::string::is_ascii(",\"categories\":"));
            assert(ascii_seq(",\"categories\":"@) =~= seq![0x2cu8] + mem_key(k_categories()));
        }
        emit_member_prefix(out, ",\"categories\":", Ghost(k_categories()));
        emit_jarr(out, &m.categories);
        proof {
            assert(out@ =~= pre + meta_seg(8, m@));
        }
    } else if k == 9 {
        if let Some(x) = &m.description {
            proof {
                reveal_strlit(",\"description\":");
                reveal_strlit("description");
                assert(vstd::string::is_ascii(",\"description\":"));
                assert(ascii_seq(",\"description\":"@) =~= seq![0x2cu8] + mem_key(k_description()));
            }
            emit_member_prefix(out, ",\"description\":", Ghost(k_description()));
            emit_jstr(out, x);
            proof {
                assert(out@ =~= pre + meta_seg(9, m@));
            }
        }
    } else if k == 10 {
        proof {
            reveal_strlit(",\"payload_checksum\":");
            reveal_strlit("payload_checksum");
            assert(vstd::string::is_ascii(",\"payload_checksum\":"));
            assert(ascii_seq(",\"payload_checksum\":"@) =~= seq![0x2cu8] + mem_key(k_payload_checksum()));
        }
        emit_member_prefix(out, ",\"payload_checksum\":", Ghost(k_payload_checksum()));
        emit_jstr(out, &m.payload_checksum);
        proof {
            assert(out@ =~= pre + meta_seg(10, m@));
        }
    } else if k == 11 {
        if let Some(x) = &m.min_runtime_version {
            proof {
                reveal_strlit(",\"min_runtime_version\":");
                reveal_strlit("min_runtime_version");
                assert(vstd::string::is_ascii(",\"min_runtime_version\":"));
                assert(ascii_seq(",\"min_runtime_version\":"@) =~= seq![0x2cu8] + mem_key(k_min_runtime_version()));
            }
            emit_member_prefix(out, ",\"min_runtime_version\":", Ghost(k_min_runtime_version()));
            emit_jstr(out, x);
            proof {
                assert(out@ =~= pre + meta_seg(11, m@));
            }
        }
    } else if k == 12 {
        if let Some(x) = &m.license {
            proof {
                reveal_strlit(",\"license\":");
                reveal_strlit("license");
                assert(vstd::string::is_ascii(",\"license\":"));
                assert(ascii_seq(",\"license\":"@) =~= seq![0x2cu8] + mem_key(k_license()));
            }
            emit_member_prefix(out, ",\"license\":", Ghost(k_license()));
            emit_jstr(out, x);
            proof {
                assert(out@ =~= pre + meta_seg(12, m@));
            }
        }
    } else if k == 13 {
        if let Some(x) = &m.homepage {
            proof {
                reveal_strlit(",\"homepage\":");
                reveal_strlit("homepage");
                assert(vstd::string::is_ascii(",\"homepage\":"));
                assert(ascii_seq(",\"homepage\":"@) =~= seq![0x2cu8] + mem_key(k_homepage()));
            }
            emit_member_prefix(out, ",\"homepage\":", Ghost(k_homepage()));
            emit_jstr(out, x);
            proof {
                assert(out@ =~= pre + meta_seg(13, m@));
            }
        }
    } else if k == 14 {
        if let Some(x) = &m.exec_args {
            proof {
                reveal_strlit(",\"exec_args\":");
                reveal_strlit("exec_args");
                assert(vstd::string::is_ascii(",\"exec_args\":"));
                assert(ascii_seq(",\"exec_args\":"@) =~= seq![0x2cu8] + mem_key(k_exec_args()));
            }
            emit_member_prefix(out, ",\"exec_args\":", Ghost(k_exec_args()));
            emit_jstr(out, x);
            proof {
                assert(out@ =~= pre + meta_seg(14, m@));
            }
        }
    } else if k == 15 {
        proof {
            reveal_strlit(",\"terminal\":");
            reveal_strlit("terminal");
            assert(vstd::string::is_ascii(",\"terminal\":"));
            assert(ascii_seq(",\"terminal\":"@) =~= seq![0x2cu8] + mem_key(k_terminal()));
        }
        emit_member_prefix(out, ",\"terminal\":", Ghost(k_terminal()));
        if m.terminal {
            proof {
                reveal_strlit("true");
                assert(vstd::string::is_ascii("true"));
            }
            emit_lit(out, "true");
        } else {
            proof {
                reveal_strlit("false");
                assert(vstd::string::is_ascii("false"));
            }
            emit_lit(out, "false");
        }
        proof {
            assert(out@ =~= pre + meta_seg(15, m@));
        }
    } else if k == 16 {
        if let Some(x) = &m.wm_class {
            proof {
                reveal_strlit(",\"wm_class\":");
                reveal_strlit("wm_class");
                assert(vstd::string::is_ascii(",\"wm_class\":"));
                assert(ascii_seq(",\"wm_class\":"@) =~= seq![0x2cu8] + mem_key(k_wm_class()));
            }
            emit_member_prefix(out, ",\"wm_class\":", Ghost(k_wm_class()));
            emit_jstr(out, x);
            proof {
                assert(out@ =~= pre + meta_seg(16, m@));
            }
        }
    } else if k == 17 {
        if let Some(x) = &m.installer {
            proof {
                reveal_strlit(",\"installer\":");
                reveal_strlit("installer");
                assert(vstd::string::is_ascii(",\"installer\":"));
                assert(ascii_seq(",\"installer\":"@) =~= seq![0x2cu8] + mem_key(k_installer()));
            }
            emit_member_prefix(out, ",\"installer\":", Ghost(k_installer()));
            let ib = x.serialize();
            out.extend_from_slice(ib.as_slice());
            proof {
                assert(out@ =~= pre + meta_seg(17, m@));
            }
        }
    } else if k == 18 {
        if let Some(x) = &m.public_key {
            proof {
                reveal_strlit(",\"public_key\":");
                reveal_strlit("public_key");
                assert(vstd::string::is_ascii(",\"public_key\":"));
                assert(ascii_seq(",\"public_key\":"@) =~= seq![0x2cu8] + mem_key(k_public_key()));
            }
            emit_member_prefix(out, ",\"public_key\":", Ghost(k_public_key()));
            emit_jstr(out, x);
            proof {
                assert(out@ =~= pre + meta_seg(18, m@));
            }
        }
    } else if k == 19 {
        if let Some(x) = &m.signature {
            proof {
                reveal_strlit(",\"signature\":");
                reveal_strlit("signature");
                assert(vstd::string::is_ascii(",\"signature\":"));
                assert(ascii_seq(",\"signature\":"@) =~= seq![0x2cu8] + mem_key(k_signature()));
            }
            emit_member_prefix(out, ",\"signature\":", Ghost(k_signature()));
            emit_jstr(out, x);
            proof {
                assert(out@ =~= pre + meta_seg(19, m@));
            }
        }
} else {
        proof {
            assert(false);
        }
    }
}

/// Appends the metadata members from slot `k` on and the closing brace.
fn emit_meta_tail(out: &mut Vec<u8>, m: &LxeMetadata, k: usize)
    requires
        1 <= k <= 20,
    ensures
        final(out)@ == old(out)@ + ser_meta_tail(k as int, m@),
    decreases 20 - k,
{
    if k == 20 {
        out.push(0x7d);
        proof {
            assert(out@ =~= old(out)@ + ser_meta_tail(20, m@));
        }
    } else {
        emit_meta_seg(out, m, k);
        emit_meta_tail(out, m, k + 1);
        proof {
            assert(out@ =~= old(out)@ + ser_meta_tail(k as int, m@));
        }
    }
}

/// Appends the signable members from slot `k` on and the closing brace.
fn emit_sig_tail(out: &mut Vec<u8>, m: &LxeMetadata, k: usize)
    requires
        1 <= k <= 16,
    ensures
        final(out)@ == old(out)@ + ser_sig_tail(k as int, m@),
    decreases 16 - k,
{
    if k == 16 {
        out.push(0x7d);
        proof {
            assert(out@ =~= old(out)@ + ser_sig_tail(16, m@));
        }
    } else {
        emit_meta_seg(out, m, k);
        emit_sig_tail(out, m, k + 1);
        proof {
            assert(out@ =~= old(out)@ + ser_sig_tail(k as int, m@));
        }
    }
}

impl LxeMetadata {
    /// The canonical JSON text of the full metadata object, as embedded in a
    /// package.
    pub fn serialize(&self) -> (r: Vec<u8>)
        ensures
            r@ == ser_meta(self@),
    {
        let mut out: Vec<u8> = Vec::new();
        proof {
            reveal_strlit("{\"format_version\":");
            reveal_strlit("format_version");
            assert(vstd::string::is_ascii("{\"format_version\":"));
            assert(ascii_seq("{\"format_version\":"@) =~= seq![0x7bu8] + mem_key(
                k_format_version(),
            ));
        }
        emit_lit(&mut out, "{\"format_version\":");
        emit_u64(&mut out, self.format_version as u64);
        emit_meta_tail(&mut out, self, 1);
        proof {
            assert(out@ =~= ser_meta(self@));
        }
        out
    }

    /// The canonical signable bytes: the fixed-order projection that the
    /// package signature covers, together with the payload digest.
    pub fn to_signable_json(&self) -> (r: Vec<u8>)
        ensures
            r@ == ser_signable(self@),
    {
        let mut out: Vec<u8> = Vec::new();
        proof {
            reveal_strlit("{\"format_version\":");
            reveal_strlit("format_version");
            assert(vstd::string::is_ascii("{\"format_version\":"));
            assert(ascii_seq("{\"format_version\":"@) =~= seq![0x7bu8] + mem_key(
                k_format_version(),
            ));
        }
        emit_lit(&mut out, "{\"format_version\":");
        emit_u64(&mut out, self.format_version as u64);
        emit_sig_tail(&mut out, self, 1);
        proof {
            assert(out@ =~= ser_signable(self@));
        }
        out
    }
}

} // verus!

verus! {

// --- parsing: mathematical model ---

/// Partial installer block while its members are read.
pub ghost struct InstB {
    pub allow_custom_dir: Option<bool>,
    pub welcome_title: Option<Seq<u8>>,
    pub welcome_text: Option<Seq<u8>>,
    pub finish_title: Option<Seq<u8>>,
    pub finish_text: Option<Seq<u8>>,
    pub accent_color: Option<Seq<u8>>,
    pub theme: Option<Seq<u8>>,
    pub license_text: Option<Seq<u8>>,
    pub banner: Option<Seq<u8>>,
    pub logo: Option<Seq<u8>>,
}

/// The empty installer builder.
pub open spec fn inst_b0() -> InstB {
    InstB {
        allow_custom_dir: None,
        welcome_title: None,
        welcome_text: None,
        finish_title: None,
        finish_text: None,
        accent_color: None,
        theme: None,
        license_text: None,
        banner: None,
        logo: None,
    }
}

/// The slot of an installer member key; `-1` for an unknown key.
pub open spec fn inst_field_index(key: Seq<u8>) -> int {
    if key == k_show_launch() {
        0
    } else if key == k_allow_custom_dir() {
        1
    } else if key == k_welcome_title() {
        2
    } else if key == k_welcome_text() {
        3
    } else if key == k_finish_title() {
        4
    } else if key == k_finish_text() {
        5
    } else if key == k_accent_color() {
        6
    } else if key == k_theme() {
        7
    } else if key == k_license_text() {
        8
    } else if key == k_banner() {
        9
    } else if key == k_logo() {
        10
    } else {
        -1
    }
}

/// Stores a string value into the installer slot `ki`.
pub open spec fn inst_set_str(b: InstB, ki: int, x: Seq<u8>) -> InstB {
    if ki == 2 {
        InstB { welcome_title: Some(x), ..b }
    } else if ki == 3 {
        InstB { welcome_text: Some(x), ..b }
    } else if ki == 4 {
        InstB { finish_title: Some(x), ..b }
    } else if ki == 5 {
        InstB { finish_text: Some(x), ..b }
    } else if ki == 6 {
        InstB { accent_color: Some(x), ..b }
    } else if ki == 7 {
        InstB { theme: Some(x), ..b }
    } else if ki == 8 {
        InstB { license_text: Some(x), ..b }
    } else if ki == 9 {
        InstB { banner: Some(x), ..b }
    } else {
        InstB { logo: Some(x), ..b }
    }
}

/// Reads the remaining installer members: after a member value, either the
/// closing brace ends the block, or a comma introduces the next member. Known
/// keys must keep the canonical order; unknown keys are skipped.
pub open spec fn sp_inst_fields(s: Seq<u8>, i: int, k: int, b: InstB) -> Option<(InstB, int)>
    decreases s.len() - i,
{
    if i < 0 || i >= s.len() {
        None
    } else if s[i] == 0x7d {
        Some((b, i + 1))
    } else if s[i] == 0x2c {
        match sp_str(s, i + 1) {
            None => None,
            Some((key, j)) => {
                if !(i + 1 <= j && j < s.len() && s[j] == 0x3a) {
                    None
                } else {
                    let ki = inst_field_index(key);
                    if ki < 0 {
                        match sp_skip(s, j + 1, 8) {
                            None => None,
                            Some(e) => if j + 1 <= e && e <= s.len() {
                                sp_inst_fields(s, e, k, b)
                            } else {
                                None
                            },
                        }
                    } else if ki < k {
                        None
                    } else if ki == 1 {
                        match sp_bool(s, j + 1) {
                            None => None,
                            Some((x, e)) => if j + 1 <= e && e <= s.len() {
                                sp_inst_fields(s, e, 2, InstB { allow_custom_dir: Some(x), ..b })
                            } else {
                                None
                            },
                        }
                    } else {
                        match sp_str(s, j + 1) {
                            None => None,
                            Some((x, e)) => if j + 1 <= e && e <= s.len() {
                                sp_inst_fields(s, e, ki + 1, inst_set_str(b, ki, x))
                            } else {
                                None
                            },
                        }
                    }
                }
            },
        }
    } else {
        None
    }
}

/// The installer block a finished builder denotes; missing knobs take their
/// defaults.
pub open spec fn inst_finish(sl: bool, b: InstB) -> InstV {
    InstV {
        show_launch: sl,
        allow_custom_dir: match b.allow_custom_dir {
            Some(x) => x,
            None => false,
        },
        welcome_title: b.welcome_title,
        welcome_text: b.welcome_text,
        finish_title: b.finish_title,
        finish_text: b.finish_text,
        accent_color: b.accent_color,
        theme: b.theme,
        license_text: b.license_text,
        banner: b.banner,
        logo: b.logo,
    }
}

/// Parses an installer block at `i`: `show_launch` leads, the rest follows.
pub open spec fn sp_inst(s: Seq<u8>, i: int) -> Option<(InstV, int)> {
    if !(0 <= i && i < s.len() && s[i] == 0x7b) {
        None
    } else {
        match sp_str(s, i + 1) {
            None => None,
            Some((key, j)) => {
                if !(key == k_show_launch() && i + 1 <= j && j < s.len() && s[j] == 0x3a) {
                    None
                } else {
                    match sp_bool(s, j + 1) {
                        None => None,
                        Some((sl, e)) => match sp_inst_fields(s, e, 1, inst_b0()) {
                            None => None,
                            Some((b, z)) => Some((inst_finish(sl, b), z)),
                        },
                    }
                }
            },
        }
    }
}

/// Partial metadata while its members are read.
pub ghost struct MetaB {
    pub app_id: Option<Seq<u8>>,
    pub name: Option<Seq<u8>>,
    pub version: Option<Seq<u8>>,
    pub arch: Option<Seq<u8>>,
    pub install_size: Option<u64>,
    pub exec_path: Option<Seq<u8>>,
    pub icon: Option<Seq<u8>>,
    pub categories: Option<Seq<Seq<u8>>>,
    pub description: Option<Seq<u8>>,
    pub payload_checksum: Option<Seq<u8>>,
    pub min_runtime_version: Option<Seq<u8>>,
    pub license: Option<Seq<u8>>,
    pub homepage: Option<Seq<u8>>,
    pub exec_args: Option<Seq<u8>>,
    pub terminal: Option<bool>,
    pub wm_class: Option<Seq<u8>>,
    pub installer: Option<InstV>,
    pub public_key: Option<Seq<u8>>,
    pub signature: Option<Seq<u8>>,
}

/// The empty metadata builder.
pub open spec fn meta_b0() -> MetaB {
    MetaB {
        app_id: None,
        name: None,
        version: None,
        arch: None,
        install_size: None,
        exec_path: None,
        icon: None,
        categories: None,
        description: None,
        payload_checksum: None,
        min_runtime_version: None,
        license: None,
        homepage: None,
        exec_args: None,
        terminal: None,
        wm_class: None,
        installer: None,
        public_key: None,
        signature: None,
    }
}

/// The slot of a metadata member key; `-1` for an unknown key.
pub open spec fn field_index(key: Seq<u8>) -> int {
    if key == k_format_version() {
        0
    } else if key == k_app_id() {
        1
    } else if key == k_name() {
        2
    } else if key == k_version() {
        3
    } else if key == k_arch() {
        4
    } else if key == k_install_size() {
        5
    } else if key == k_exec() {
        6
    } else if key == k_icon() {
        7
    } else if key == k_categories() {
        8
    } else if key == k_description() {
        9
    } else if key == k_payload_checksum() {
        10
    } else if key == k_min_runtime_version() {
        11
    } else if key == k_license() {
        12
    } else if key == k_homepage() {
        13
    } else if key == k_exec_args() {
        14
    } else if key == k_terminal() {
        15
    } else if key == k_wm_class() {
        16
    } else if key == k_installer() {
        17
    } else if key == k_public_key() {
        18
    } else if key == k_signature() {
        19
    } else {
        -1
    }
}

/// Stores a string value into the metadata slot `ki`.
pub open spec fn meta_set_str(b: MetaB, ki: int, x: Seq<u8>) -> MetaB {
    if ki == 1 {
        MetaB { app_id: Some(x), ..b }
    } else if ki == 2 {
        MetaB { name: Some(x), ..b }
    } else if ki == 3 {
        MetaB { version: Some(x), ..b }
    } else if ki == 4 {
        MetaB { arch: Some(x), ..b }
    } else if ki == 6 {
        MetaB { exec_path: Some(x), ..b }
    } else if ki == 7 {
        MetaB { icon: Some(x), ..b }
    } else if ki == 9 {
        MetaB { description: Some(x), ..b }
    } else if ki == 10 {
        MetaB { payload_checksum: Some(x), ..b }
    } else if ki == 11 {
        MetaB { min_runtime_version: Some(x), ..b }
    } else if ki == 12 {
        MetaB { license: Some(x), ..b }
    } else if ki == 13 {
        MetaB { homepage: Some(x), ..b }
    } else if ki == 14 {
        MetaB { exec_args: Some(x), ..b }
    } else if ki == 16 {
        MetaB { wm_class: Some(x), ..b }
    } else if ki == 18 {
        MetaB { public_key: Some(x), ..b }
    } else {
        MetaB { signature: Some(x), ..b }
    }
}

/// Whether metadata slot `ki` carries a string value.
pub open spec fn is_str_slot(ki: int) -> bool {
    ki == 1 || ki == 2 || ki == 3 || ki == 4 || ki == 6 || ki == 7 || ki == 9 || ki == 10 || ki
        == 11 || ki == 12 || ki == 13 || ki == 14 || ki == 16 || ki == 18 || ki == 19
}

/// Reads the remaining metadata members, as `sp_inst_fields` does for the
/// installer block.
pub open spec fn sp_fields(s: Seq<u8>, i: int, k: int, b: MetaB) -> Option<(MetaB, int)>
    decreases s.len() - i,
{
    if i < 0 || i >= s.len() {
        None
    } else if s[i] == 0x7d {
        Some((b, i + 1))
    } else if s[i] == 0x2c {
        match sp_str(s, i + 1) {
            None => None,
            Some((key, j)) => {
                if !(i + 1 <= j && j < s.len() && s[j] == 0x3a) {
                    None
                } else {
                    let ki = field_index(key);
                    if ki < 0 {
                        match sp_skip(s, j + 1, 8) {
                            None => None,
                            Some(e) => if j + 1 <= e && e <= s.len() {
                                sp_fields(s, e, k, b)
                            } else {
                                None
                            },
                        }
                    } else if ki < k {
                        None
                    } else if ki == 5 {
                        match sp_u64(s, j + 1) {
                            None => None,
                            Some((x, e)) => if j + 1 <= e && e <= s.len() {
                                sp_fields(s, e, 6, MetaB { install_size: Some(x), ..b })
                            } else {
                                None
                            },
                        }
                    } else if ki == 8 {
                        match sp_arr(s, j + 1) {
                            None => None,
                            Some((x, e)) => if j + 1 <= e && e <= s.len() {
                                sp_fields(s, e, 9, MetaB { categories: Some(x), ..b })
                            } else {
                                None
                            },
                        }
                    } else if ki == 15 {
                        match sp_bool(s, j + 1) {
                            None => None,
                            Some((x, e)) => if j + 1 <= e && e <= s.len() {
                                sp_fields(s, e, 16, MetaB { terminal: Some(x), ..b })
                            } else {
                                None
                            },
                        }
                    } else if ki == 17 {
                        match sp_inst(s, j + 1) {
                            None => None,
                            Some((x, e)) => if j + 1 <= e && e <= s.len() {
                                sp_fields(s, e, 18, MetaB { installer: Some(x), ..b })
                            } else {
                                None
                            },
                        }
                    } else {
                        match sp_str(s, j + 1) {
                            None => None,
                            Some((x, e)) => if j + 1 <= e && e <= s.len() {
                                sp_fields(s, e, ki + 1, meta_set_str(b, ki, x))
                            } else {
                                None
                            },
                        }
                    }
                }
            },
        }
    } else {
        None
    }
}

/// The metadata a finished builder denotes: required fields must be present,
/// the format version must fit a byte; categories default to none, terminal
/// to false.
pub open spec fn meta_finish(fv: u64, b: MetaB) -> Option<MetaV> {
    if fv > 255 {
        None
    } else if b.app_id is None || b.name is None || b.version is None || b.arch is None
        || b.install_size is None || b.exec_path is None || b.payload_checksum is None {
        None
    } else {
        Some(
            MetaV {
                format_version: fv as u8,
                app_id: b.app_id->Some_0,
                name: b.name->Some_0,
                version: b.version->Some_0,
                arch: b.arch->Some_0,
                install_size: b.install_size->Some_0,
                exec_path: b.exec_path->Some_0,
                icon: b.icon,
                categories: match b.categories {
                    Some(c) => c,
                    None => Seq::empty(),
                },
                description: b.description,
                payload_checksum: b.payload_checksum->Some_0,
                min_runtime_version: b.min_runtime_version,
                license: b.license,
                homepage: b.homepage,
                exec_args: b.exec_args,
                terminal: match b.terminal {
                    Some(t) => t,
                    None => false,
                },
                wm_class: b.wm_class,
                installer: b.installer,
                public_key: b.public_key,
                signature: b.signature,
            },
        )
    }
}

/// Parses a whole metadata object: `format_version` must lead; the text must
/// end exactly at the closing brace.
pub open spec fn sp_meta(s: Seq<u8>) -> Option<MetaV> {
    if !(s.len() >= 1 && s[0] == 0x7b) {
        None
    } else {
        match sp_str(s, 1) {
            None => None,
            Some((key, j)) => {
                if !(key == k_format_version() && j < s.len() && s[j] == 0x3a) {
                    None
                } else {
                    match sp_u64(s, j + 1) {
                        None => None,
                        Some((fv, e)) => match sp_fields(s, e, 1, meta_b0()) {
                            None => None,
                            Some((b, z)) => if z == s.len() {
                                meta_finish(fv, b)
                            } else {
                                None
                            },
                        },
                    }
                }
            },
        }
    }
}

} // verus!

verus! {

pub proof fn lemma_inst_keys()
    ensures
        plain(k_show_launch()),
        inst_field_index(k_show_launch()) == 0,
        k_show_launch().len() == 11,
        plain(k_allow_custom_dir()),
        inst_field_index(k_allow_custom_dir()) == 1,
        k_allow_custom_dir().len() == 16,
        plain(k_welcome_title()),
        inst_field_index(k_welcome_title()) == 2,
        k_welcome_title().len() == 13,
        plain(k_welcome_text()),
        inst_field_index(k_welcome_text()) == 3,
        k_welcome_text().len() == 12,
        plain(k_finish_title()),
        inst_field_index(k_finish_title()) == 4,
        k_finish_title().len() == 12,
        plain(k_finish_text()),
        inst_field_index(k_finish_text()) == 5,
        k_finish_text().len() == 11,
        plain(k_accent_color()),
        inst_field_index(k_accent_color()) == 6,
        k_accent_color().len() == 12,
        plain(k_theme()),
        inst_field_index(k_theme()) == 7,
        k_theme().len() == 5,
        plain(k_license_text()),
        inst_field_index(k_license_text()) == 8,
        k_license_text().len() == 12,
        plain(k_banner()),
        inst_field_index(k_banner()) == 9,
        k_banner().len() == 6,
        plain(k_logo()),
        inst_field_index(k_logo()) == 10,
        k_logo().len() == 4,
{
    reveal_strlit("show_launch");
    reveal_strlit("allow_custom_dir");
    reveal_strlit("welcome_title");
    reveal_strlit("welcome_text");
    reveal_strlit("finish_title");
    reveal_strlit("finish_text");
    reveal_strlit("accent_color");
    reveal_strlit("theme");
    reveal_strlit("license_text");
    reveal_strlit("banner");
    reveal_strlit("logo");
    assert(k_show_launch()[0] != k_finish_text()[0]);
    assert(k_welcome_text()[0] != k_finish_title()[0]);
    assert(k_welcome_text()[0] != k_accent_color()[0]);
    assert(k_welcome_text()[0] != k_license_text()[0]);
    assert(k_finish_title()[0] != k_accent_color()[0]);
    assert(k_finish_title()[0] != k_license_text()[0]);
    assert(k_accent_color()[0] != k_license_text()[0]);
}

pub proof fn lemma_meta_keys()
    ensures
        plain(k_format_version()),
        field_index(k_format_version()) == 0,
        k_format_version().len() == 14,
        plain(k_app_id()),
        field_index(k_app_id()) == 1,
        k_app_id().len() == 6,
        plain(k_name()),
        field_index(k_name()) == 2,
        k_name().len() == 4,
        plain(k_version()),
        field_index(k_version()) == 3,
        k_version().len() == 7,
        plain(k_arch()),
        field_index(k_arch()) == 4,
        k_arch().len() == 4,
        plain(k_install_size()),
        field_index(k_install_size()) == 5,
        k_install_size().len() == 12,
        plain(k_exec()),
        field_index(k_exec()) == 6,
        k_exec().len() == 4,
        plain(k_icon()),
        field_index(k_icon()) == 7,
        k_icon().len() == 4,
        plain(k_categories()),
        field_index(k_categories()) == 8,
        k_categories().len() == 10,
        plain(k_description()),
        field_index(k_description()) == 9,
        k_description().len() == 11,
        plain(k_payload_checksum()),
        field_index(k_payload_checksum()) == 10,
        k_payload_checksum().len() == 16,
        plain(k_min_runtime_version()),
        field_index(k_min_runtime_version()) == 11,
        k_min_runtime_version().len() == 19,
        plain(k_license()),
        field_index(k_license()) == 12,
        k_license().len() == 7,
        plain(k_homepage()),
        field_index(k_homepage()) == 13,
        k_homepage().len() == 8,
        plain(k_exec_args()),
        field_index(k_exec_args()) == 14,
        k_exec_args().len() == 9,
        plain(k_terminal()),
        field_index(k_terminal()) == 15,
        k_terminal().len() == 8,
        plain(k_wm_class()),
        field_index(k_wm_class()) == 16,
        k_wm_class().len() == 8,
        plain(k_installer()),
        field_index(k_installer()) == 17,
        k_installer().len() == 9,
        plain(k_public_key()),
        field_index(k_public_key()) == 18,
        k_public_key().len() == 10,
        plain(k_signature()),
        field_index(k_signature()) == 19,
        k_signature().len() == 9,
{
    reveal_strlit("format_version");
    reveal_strlit("app_id");
    reveal_strlit("name");
    reveal_strlit("version");
    reveal_strlit("arch");
    reveal_strlit("install_size");
    reveal_strlit("exec");
    reveal_strlit("icon");
    reveal_strlit("categories");
    reveal_strlit("description");
    reveal_strlit("payload_checksum");
    reveal_strlit("min_runtime_version");
    reveal_strlit("license");
    reveal_strlit("homepage");
    reveal_strlit("exec_args");
    reveal_strlit("terminal");
    reveal_strlit("wm_class");
    reveal_strlit("installer");
    reveal_strlit("public_key");
    reveal_strlit("signature");
    assert(k_name()[0] != k_arch()[0]);
    assert(k_name()[0] != k_exec()[0]);
    assert(k_name()[0] != k_icon()[0]);
    assert(k_arch()[0] != k_exec()[0]);
    assert(k_arch()[0] != k_icon()[0]);
    assert(k_exec()[0] != k_icon()[0]);
    assert(k_version()[0] != k_license()[0]);
    assert(k_categories()[0] != k_public_key()[0]);
    assert(k_homepage()[0] != k_terminal()[0]);
    assert(k_homepage()[0] != k_wm_class()[0]);
    assert(k_terminal()[0] != k_wm_class()[0]);
    assert(k_exec_args()[0] != k_installer()[0]);
    assert(k_exec_args()[0] != k_signature()[0]);
    assert(k_installer()[0] != k_signature()[0]);
}

/// Whether installer slot `j` is present in `v`.
pub open spec fn present_inst(v: InstV, j: int) -> bool {
    if j == 1 {
        true
    } else if j == 2 {
        v.welcome_title is Some
    } else if j == 3 {
        v.welcome_text is Some
    } else if j == 4 {
        v.finish_title is Some
    } else if j == 5 {
        v.finish_text is Some
    } else if j == 6 {
        v.accent_color is Some
    } else if j == 7 {
        v.theme is Some
    } else if j == 8 {
        v.license_text is Some
    } else if j == 9 {
        v.banner is Some
    } else if j == 10 {
        v.logo is Some
    } else {
        false
    }
}

/// The builder after reading the members of `v` from slot `k` on.
pub open spec fn fill_inst(b: InstB, v: InstV, k: int) -> InstB {
    InstB {
        allow_custom_dir: if k <= 1 {
            Some(v.allow_custom_dir)
        } else {
            b.allow_custom_dir
        },
        welcome_title: if k <= 2 && v.welcome_title is Some {
            v.welcome_title
        } else {
            b.welcome_title
        },
        welcome_text: if k <= 3 && v.welcome_text is Some {
            v.welcome_text
        } else {
            b.welcome_text
        },
        finish_title: if k <= 4 && v.finish_title is Some {
            v.finish_title
        } else {
            b.finish_title
        },
        finish_text: if k <= 5 && v.finish_text is Some {
            v.finish_text
        } else {
            b.finish_text
        },
        accent_color: if k <= 6 && v.accent_color is Some {
            v.accent_color
        } else {
            b.accent_color
        },
        theme: if k <= 7 && v.theme is Some {
            v.theme
        } else {
            b.theme
        },
        license_text: if k <= 8 && v.license_text is Some {
            v.license_text
        } else {
            b.license_text
        },
        banner: if k <= 9 && v.banner is Some {
            v.banner
        } else {
            b.banner
        },
        logo: if k <= 10 && v.logo is Some {
            v.logo
        } else {
            b.logo
        },
    }
}

/// Whether metadata slot `j` is present in `v`.
pub open spec fn present_meta(v: MetaV, j: int) -> bool {
    if j == 1 || j == 2 || j == 3 || j == 4 || j == 5 || j == 6 || j == 8 || j == 10 || j == 15 {
        true
    } else if j == 7 {
        v.icon is Some
    } else if j == 9 {
        v.description is Some
    } else if j == 11 {
        v.min_runtime_version is Some
    } else if j == 12 {
        v.license is Some
    } else if j == 13 {
        v.homepage is Some
    } else if j == 14 {
        v.exec_args is Some
    } else if j == 16 {
        v.wm_class is Some
    } else if j == 17 {
        v.installer is Some
    } else if j == 18 {
        v.public_key is Some
    } else if j == 19 {
        v.signature is Some
    } else {
        false
    }
}

/// The builder after reading the members of `v` from slot `k` on.
pub open spec fn fill_meta(b: MetaB, v: MetaV, k: int) -> MetaB {
    MetaB {
        app_id: if k <= 1 {
            Some(v.app_id)
        } else {
            b.app_id
        },
        name: if k <= 2 {
            Some(v.name)
        } else {
            b.name
        },
        version: if k <= 3 {
            Some(v.version)
        } else {
            b.version
        },
        arch: if k <= 4 {
            Some(v.arch)
        } else {
            b.arch
        },
        install_size: if k <= 5 {
            Some(v.install_size)
        } else {
            b.install_size
        },
        exec_path: if k <= 6 {
            Some(v.exec_path)
        } else {
            b.exec_path
        },
        icon: if k <= 7 && v.icon is Some {
            v.icon
        } else {
            b.icon
        },
        categories: if k <= 8 {
            Some(v.categories)
        } else {
            b.categories
        },
        description: if k <= 9 && v.description is Some {
            v.description
        } else {
            b.description
        },
        payload_checksum: if k <= 10 {
            Some(v.payload_checksum)
        } else {
            b.payload_checksum
        },
        min_runtime_version: if k <= 11 && v.min_runtime_version is Some {
            v.min_runtime_version
        } else {
            b.min_runtime_version
        },
        license: if k <= 12 && v.license is Some {
            v.license
        } else {
            b.license
        },
        homepage: if k <= 13 && v.homepage is Some {
            v.homepage
        } else {
            b.homepage
        },
        exec_args: if k <= 14 && v.exec_args is Some {
            v.exec_args
        } else {
            b.exec_args
        },
        terminal: if k <= 15 {
            Some(v.terminal)
        } else {
            b.terminal
        },
        wm_class: if k <= 16 && v.wm_class is Some {
            v.wm_class
        } else {
            b.wm_class
        },
        installer: if k <= 17 && v.installer is Some {
            v.installer
        } else {
            b.installer
        },
        public_key: if k <= 18 && v.public_key is Some {
            v.public_key
        } else {
            b.public_key
        },
        signature: if k <= 19 && v.signature is Some {
            v.signature
        } else {
            b.signature
        },
    }
}

/// Every tail starts with a comma or the closing brace.
pub proof fn lemma_inst_tail_first(k: int, v: InstV)
    requires
        1 <= k <= 11,
    ensures
        ser_inst_tail(k, v).len() >= 1,
        ser_inst_tail(k, v)[0] == 0x2c || ser_inst_tail(k, v)[0] == 0x7d,
    decreases 11 - k,
{
    if k < 11 {
        lemma_inst_tail_first(k + 1, v);
        let sg = ser_inst_tail(k, v).subrange(0, ser_inst_tail(k, v).len() as int);
        if k == 1 || present_inst(v, k) {
            assert(ser_inst_tail(k, v)[0] == 0x2c);
        } else {
            assert(ser_inst_tail(k, v) =~= ser_inst_tail(k + 1, v));
        }
    }
}

/// Every tail starts with a comma or the closing brace.
pub proof fn lemma_meta_tail_first(k: int, v: MetaV)
    requires
        1 <= k <= 20,
    ensures
        ser_meta_tail(k, v).len() >= 1,
        ser_meta_tail(k, v)[0] == 0x2c || ser_meta_tail(k, v)[0] == 0x7d,
    decreases 20 - k,
{
    if k < 20 {
        lemma_meta_tail_first(k + 1, v);
        if present_meta(v, k) {
            assert(ser_meta_tail(k, v)[0] == 0x2c);
        } else {
            assert(meta_seg(k, v) =~= Seq::<u8>::empty());
            assert(ser_meta_tail(k, v) =~= ser_meta_tail(k + 1, v));
        }
    }
}

/// The signable tail likewise.
pub proof fn lemma_sig_tail_first(k: int, v: MetaV)
    requires
        1 <= k <= 16,
    ensures
        ser_sig_tail(k, v).len() >= 1,
        ser_sig_tail(k, v)[0] == 0x2c || ser_sig_tail(k, v)[0] == 0x7d,
    decreases 16 - k,
{
    if k < 16 {
        lemma_sig_tail_first(k + 1, v);
        if present_meta(v, k) {
            assert(ser_sig_tail(k, v)[0] == 0x2c);
        } else {
            assert(meta_seg(k, v) =~= Seq::<u8>::empty());
            assert(ser_sig_tail(k, v) =~= ser_sig_tail(k + 1, v));
        }
    }
}

/// Decomposes one `,"key":value` member standing at `i`: the comma, the key
/// as a parsed string, the colon, the value bytes and the remaining bytes.
pub proof fn lemma_member_common(s: Seq<u8>, i: int, key: Seq<u8>, val: Seq<u8>, rest: Seq<u8>)
    requires
        0 <= i,
        plain(key),
        i + 4 + key.len() + val.len() + rest.len() <= s.len(),
        s.subrange(i, i + 4 + key.len() + val.len() + rest.len()) == seq![0x2cu8] + mem_key(key)
            + val + rest,
    ensures
        s[i] == 0x2c,
        sp_str(s, i + 1) == Some((key, i + 3 + key.len())),
        s[i + 3 + key.len()] == 0x3a,
        s.subrange(i + 4 + key.len(), i + 4 + key.len() + val.len()) == val,
        s.subrange(
            i + 4 + key.len() + val.len(),
            i + 4 + key.len() + val.len() + rest.len(),
        ) == rest,
{
    lemma_esc_plain(key);
    assert(jstr(key) =~= seq![0x22u8] + key + seq![0x22u8]);
    let r1 = jstr(key) + (seq![0x3au8] + (val + rest));
    assert(seq![0x2cu8] + mem_key(key) + val + rest =~= seq![0x2cu8] + r1);
    lemma_split_at(s, i, seq![0x2cu8], r1);
    assert(s.subrange(i, i + 1)[0] == seq![0x2cu8][0]);
    let r2 = seq![0x3au8] + (val + rest);
    lemma_split_at(s, i + 1, jstr(key), r2);
    lemma_sp_str_rt(s, i + 1, key);
    let j = i + 3 + key.len();
    assert(jstr(key).len() == key.len() + 2);
    lemma_split_at(s, j, seq![0x3au8], val + rest);
    assert(s.subrange(j, j + 1)[0] == seq![0x3au8][0]);
    lemma_split_at(s, j + 1, val, rest);
}

} // verus!


verus! {

#[verifier::spinoff_prover]
proof fn lemma_inst_slot_1(s: Seq<u8>, i: int, kp: int, b: InstB, v: InstV)
    requires
        1 <= kp <= 1,
        forall|j: int| kp <= j < 1 ==> !present_inst(v, j),
        present_inst(v, 1),
        0 <= i,
        i + ser_inst_tail(1, v).len() <= s.len(),
        s.subrange(i, i + ser_inst_tail(1, v).len()) == ser_inst_tail(1, v),
    ensures
        sp_inst_fields(s, i, kp, b) == Some(
            (fill_inst(b, v, kp), i + ser_inst_tail(1, v).len()),
        ),
    decreases 11 - 1, 0int,
{
    lemma_inst_keys();
    let k = 1int;
    let tail2 = ser_inst_tail(k + 1, v);
    let key = k_allow_custom_dir();
    let val = jbool(v.allow_custom_dir);
    assert(ser_inst_tail(k, v) =~= seq![0x2cu8] + mem_key(key) + val + tail2);
    lemma_member_common(s, i, key, val, tail2);
    let j1 = i + 4 + key.len();
    lemma_sp_bool_rt(s, j1, v.allow_custom_dir);
    let e = j1 + val.len() as int;
    let b2 = InstB { allow_custom_dir: Some(v.allow_custom_dir), ..b };
    lemma_inst_fields_rt(s, e, 2int, 2int, b2, v);
    assert(sp_inst_fields(s, i, kp, b) == sp_inst_fields(s, e, 2int, b2));
    assert(fill_inst(b, v, kp) == fill_inst(b2, v, 2int));
}

#[verifier::spinoff_prover]
proof fn lemma_inst_slot_2(s: Seq<u8>, i: int, kp: int, b: InstB, v: InstV)
    requires
        1 <= kp <= 2,
        forall|j: int| kp <= j < 2 ==> !present_inst(v, j),
        present_inst(v, 2),
        0 <= i,
        i + ser_inst_tail(2, v).len() <= s.len(),
        s.subrange(i, i + ser_inst_tail(2, v).len()) == ser_inst_tail(2, v),
    ensures
        sp_inst_fields(s, i, kp, b) == Some(
            (fill_inst(b, v, kp), i + ser_inst_tail(2, v).len()),
        ),
    decreases 11 - 2, 0int,
{
    lemma_inst_keys();
    let k = 2int;
    let tail2 = ser_inst_tail(k + 1, v);
    let key = k_welcome_title();
    let val = jstr(v.welcome_title->Some_0);
    assert(ser_inst_tail(k, v) =~= seq![0x2cu8] + mem_key(key) + val + tail2);
    lemma_member_common(s, i, key, val, tail2);
    let j1 = i + 4 + key.len();
    lemma_sp_str_rt(s, j1, v.welcome_title->Some_0);
    let e = j1 + val.len() as int;
    let b2 = inst_set_str(b, 2, v.welcome_title->Some_0);
    lemma_inst_fields_rt(s, e, 3int, 3int, b2, v);
    assert(sp_inst_fields(s, i, kp, b) == sp_inst_fields(s, e, 3int, b2));
    assert(kp <= 1int ==> !present_inst(v, 1int));
    assert(fill_inst(b, v, kp) == fill_inst(b2, v, 3int));
}

#[verifier::spinoff_prover]
proof fn lemma_inst_slot_3(s: Seq<u8>, i: int, kp: int, b: InstB, v: InstV)
    requires
        1 <= kp <= 3,
        forall|j: int| kp <= j < 3 ==> !present_inst(v, j),
        present_inst(v, 3),
        0 <= i,
        i + ser_inst_tail(3, v).len() <= s.len(),
        s.subrange(i, i + ser_inst_tail(3, v).len()) == ser_inst_tail(3, v),
    ensures
        sp_inst_fields(s, i, kp, b) == Some(
            (fill_inst(b, v, kp), i + ser_inst_tail(3, v).len()),
        ),
    decreases 11 - 3, 0int,
{
    lemma_inst_keys();
    let k = 3int;
    let tail2 = ser_inst_tail(k + 1, v);
    let key = k_welcome_text();
    let val = jstr(v.welcome_text->Some_0);
    assert(ser_inst_tail(k, v) =~= seq![0x2cu8] + mem_key(key) + val + tail2);
    lemma_member_common(s, i, key, val, tail2);
    let j1 = i + 4 + key.len();
    lemma_sp_str_rt(s, j1, v.welcome_text->Some_0);
    let e = j1 + val.len() as int;
    let b2 = inst_set_str(b, 3, v.welcome_text->Some_0);
    lemma_inst_fields_rt(s, e, 4int, 4int, b2, v);
    assert(sp_inst_fields(s, i, kp, b) == sp_inst_fields(s, e, 4int, b2));
    assert(kp <= 1int ==> !present_inst(v, 1int));
    assert(kp <= 2int ==> !present_inst(v, 2int));
    assert(fill_inst(b, v, kp) == fill_inst(b2, v, 4int));
}

#[verifier::spinoff_prover]
proof fn lemma_inst_slot_4(s: Seq<u8>, i: int, kp: int, b: InstB, v: InstV)
    requires
        1 <= kp <= 4,
        forall|j: int| kp <= j < 4 ==> !present_inst(v, j),
        present_inst(v, 4),
        0 <= i,
        i + ser_inst_tail(4, v).len() <= s.len(),
        s.subrange(i, i + ser_inst_tail(4, v).len()) == ser_inst_tail(4, v),
    ensures
        sp_inst_fields(s, i, kp, b) == Some(
            (fill_inst(b, v, kp), i + ser_inst_tail(4, v).len()),
        ),
    decreases 11 - 4, 0int,
{
    lemma_inst_keys();
    let k = 4int;
    let tail2 = ser_inst_tail(k + 1, v);
    let key = k_finish_title();
    let val = jstr(v.finish_title->Some_0);
    assert(ser_inst_tail(k, v) =~= seq![0x2cu8] + mem_key(key) + val + tail2);
    lemma_member_common(s, i, key, val, tail2);
    let j1 = i + 4 + key.len();
    lemma_sp_str_rt(s, j1, v.finish_title->Some_0);
    let e = j1 + val.len() as int;
    let b2 = inst_set_str(b, 4, v.finish_title->Some_0);
    lemma_inst_fields_rt(s, e, 5int, 5int, b2, v);
    assert(sp_inst_fields(s, i, kp, b) == sp_inst_fields(s, e, 5int, b2));
    assert(kp <= 1int ==> !present_inst(v, 1int));
    assert(kp <= 2int ==> !present_inst(v, 2int));
    assert(kp <= 3int ==> !present_inst(v, 3int));
    assert(fill_inst(b, v, kp) == fill_inst(b2, v, 5int));
}

#[verifier::spinoff_prover]
proof fn lemma_inst_slot_5(s: Seq<u8>, i: int, kp: int, b: InstB, v: InstV)
    requires
        1 <= kp <= 5,
        forall|j: int| kp <= j < 5 ==> !present_inst(v, j),
        present_inst(v, 5),
        0 <= i,
        i + ser_inst_tail(5, v).len() <= s.len(),
        s.subrange(i, i + ser_inst_tail(5, v).len()) == ser_inst_tail(5, v),
    ensures
        sp_inst_fields(s, i, kp, b) == Some(
            (fill_inst(b, v, kp), i + ser_inst_tail(5, v).len()),
        ),
    decreases 11 - 5, 0int,
{
    lemma_inst_keys();
    let k = 5int;
    let tail2 = ser_inst_tail(k + 1, v);
    let key = k_finish_text();
    let val = jstr(v.finish_text->Some_0);
    assert(ser_inst_tail(k, v) =~= seq![0x2cu8] + mem_key(key) + val + tail2);
    lemma_member_common(s, i, key, val, tail2);
    let j1 = i + 4 + key.len();
    lemma_sp_str_rt(s, j1, v.finish_text->Some_0);
    let e = j1 + val.len() as int;
    let b2 = inst_set_str(b, 5, v.finish_text->Some_0);
    lemma_inst_fields_rt(s, e, 6int, 6int, b2, v);
    assert(sp_inst_fields(s, i, kp, b) == sp_inst_fields(s, e, 6int, b2));
    assert(kp <= 1int ==> !present_inst(v, 1int));
    assert(kp <= 2int ==> !present_inst(v, 2int));
    assert(kp <= 3int ==> !present_inst(v, 3int));
    assert(kp <= 4int ==> !present_inst(v, 4int));
    assert(fill_inst(b, v, kp) == fill_inst(b2, v, 6int));
}

#[verifier::spinoff_prover]
proof fn lemma_inst_slot_6(s: Seq<u8>, i: int, kp: int, b: InstB, v: InstV)
    requires
        1 <= kp <= 6,
        forall|j: int| kp <= j < 6 ==> !present_inst(v, j),
        present_inst(v, 6),
        0 <= i,
        i + ser_inst_tail(6, v).len() <= s.len(),
        s.subrange(i, i + ser_inst_tail(6, v).len()) == ser_inst_tail(6, v),
    ensures
        sp_inst_fields(s, i, kp, b) == Some(
            (fill_inst(b, v, kp), i + ser_inst_tail(6, v).len()),
        ),
    decreases 11 - 6, 0int,
{
    lemma_inst_keys();
    let k = 6int;
    let tail2 = ser_inst_tail(k + 1, v);
    let key = k_accent_color();
    let val = jstr(v.accent_color->Some_0);
    assert(ser_inst_tail(k, v) =~= seq![0x2cu8] + mem_key(key) + val + tail2);
    lemma_member_common(s, i, key, val, tail2);
    let j1 = i + 4 + key.len();
    lemma_sp_str_rt(s, j1, v.accent_color->Some_0);
    let e = j1 + val.len() as int;
    let b2 = inst_set_str(b, 6, v.accent_color->Some_0);
    lemma_inst_fields_rt(s, e, 7int, 7int, b2, v);
    assert(sp_inst_fields(s, i, kp, b) == sp_inst_fields(s, e, 7int, b2));
    assert(kp <= 1int ==> !present_inst(v, 1int));
    assert(kp <= 2int ==> !present_inst(v, 2int));
    assert(kp <= 3int ==> !present_inst(v, 3int));
    assert(kp <= 4int ==> !present_inst(v, 4int));
    assert(kp <= 5int ==> !present_inst(v, 5int));
    assert(fill_inst(b, v, kp) == fill_inst(b2, v, 7int));
}

#[verifier::spinoff_prover]
proof fn lemma_inst_slot_7(s: Seq<u8>, i: int, kp: int, b: InstB, v: InstV)
    requires
        1 <= kp <= 7,
        forall|j: int| kp <= j < 7 ==> !present_inst(v, j),
        present_inst(v, 7),
        0 <= i,
        i + ser_inst_tail(7, v).len() <= s.len(),
        s.subrange(i, i + ser_inst_tail(7, v).len()) == ser_inst_tail(7, v),
    ensures
        sp_inst_fields(s, i, kp, b) == Some(
            (fill_inst(b, v, kp), i + ser_inst_tail(7, v).len()),
        ),
    decreases 11 - 7, 0int,
{
    lemma_inst_keys();
    let k = 7int;
    let tail2 = ser_inst_tail(k + 1, v);
    let key = k_theme();
    let val = jstr(v.theme->Some_0);
    assert(ser_inst_tail(k, v) =~= seq![0x2cu8] + mem_key(key) + val + tail2);
    lemma_member_common(s, i, key, val, tail2);
    let j1 = i + 4 + key.len();
    lemma_sp_str_rt(s, j1, v.theme->Some_0);
    let e = j1 + val.len() as int;
    let b2 = inst_set_str(b, 7, v.theme->Some_0);
    lemma_inst_fields_rt(s, e, 8int, 8int, b2, v);
    assert(sp_inst_fields(s, i, kp, b) == sp_inst_fields(s, e, 8int, b2));
    assert(kp <= 1int ==> !present_inst(v, 1int));
    assert(kp <= 2int ==> !present_inst(v, 2int));
    assert(kp <= 3int ==> !present_inst(v, 3int));
    assert(kp <= 4int ==> !present_inst(v, 4int));
    assert(kp <= 5int ==> !present_inst(v, 5int));
    assert(kp <= 6int ==> !present_inst(v, 6int));
    assert(fill_inst(b, v, kp) == fill_inst(b2, v, 8int));
}

#[verifier::spinoff_prover]
proof fn lemma_inst_slot_8(s: Seq<u8>, i: int, kp: int, b: InstB, v: InstV)
    requires
        1 <= kp <= 8,
        forall|j: int| kp <= j < 8 ==> !present_inst(v, j),
        present_inst(v, 8),
        0 <= i,
        i + ser_inst_tail(8, v).len() <= s.len(),
        s.subrange(i, i + ser_inst_tail(8, v).len()) == ser_inst_tail(8, v),
    ensures
        sp_inst_fields(s, i, kp, b) == Some(
            (fill_inst(b, v, kp), i + ser_inst_tail(8, v).len()),
        ),
    decreases 11 - 8, 0int,
{
    lemma_inst_keys();
    let k = 8int;
    let tail2 = ser_inst_tail(k + 1, v);
    let key = k_license_text();
    let val = jstr(v.license_text->Some_0);
    assert(ser_inst_tail(k, v) =~= seq![0x2cu8] + mem_key(key) + val + tail2);
    lemma_member_common(s, i, key, val, tail2);
    let j1 = i + 4 + key.len();
    lemma_sp_str_rt(s, j1, v.license_text->Some_0);
    let e = j1 + val.len() as int;
    let b2 = inst_set_str(b, 8, v.license_text->Some_0);
    lemma_inst_fields_rt(s, e, 9int, 9int, b2, v);
    assert(sp_inst_fields(s, i, kp, b) == sp_inst_fields(s, e, 9int, b2));
    assert(kp <= 1int ==> !present_inst(v, 1int));
    assert(kp <= 2int ==> !present_inst(v, 2int));
    assert(kp <= 3int ==> !present_inst(v, 3int));
    assert(kp <= 4int ==> !present_inst(v, 4int));
    assert(kp <= 5int ==> !present_inst(v, 5int));
    assert(kp <= 6int ==> !present_inst(v, 6int));
    assert(kp <= 7int ==> !present_inst(v, 7int));
    assert(fill_inst(b, v, kp) == fill_inst(b2, v, 9int));
}

#[verifier::spinoff_prover]
proof fn lemma_inst_slot_9(s: Seq<u8>, i: int, kp: int, b: InstB, v: InstV)
    requires
        1 <= kp <= 9,
        forall|j: int| kp <= j < 9 ==> !present_inst(v, j),
        present_inst(v, 9),
        0 <= i,
        i + ser_inst_tail(9, v).len() <= s.len(),
        s.subrange(i, i + ser_inst_tail(9, v).len()) == ser_inst_tail(9, v),
    ensures
        sp_inst_fields(s, i, kp, b) == Some(
            (fill_inst(b, v, kp), i + ser_inst_tail(9, v).len()),
        ),
    decreases 11 - 9, 0int,
{
    lemma_inst_keys();
    let k = 9int;
    let tail2 = ser_inst_tail(k + 1, v);
    let key = k_banner();
    let val = jstr(v.banner->Some_0);
    assert(ser_inst_tail(k, v) =~= seq![0x2cu8] + mem_key(key) + val + tail2);
    lemma_member_common(s, i, key, val, tail2);
    let j1 = i + 4 + key.len();
    lemma_sp_str_rt(s, j1, v.banner->Some_0);
    let e = j1 + val.len() as int;
    let b2 = inst_set_str(b, 9, v.banner->Some_0);
    lemma_inst_fields_rt(s, e, 10int, 10int, b2, v);
    assert(sp_inst_fields(s, i, kp, b) == sp_inst_fields(s, e, 10int, b2));
    assert(kp <= 1int ==> !present_inst(v, 1int));
    assert(kp <= 2int ==> !present_inst(v, 2int));
    assert(kp <= 3int ==> !present_inst(v, 3int));
    assert(kp <= 4int ==> !present_inst(v, 4int));
    assert(kp <= 5int ==> !present_inst(v, 5int));
    assert(kp <= 6int ==> !present_inst(v, 6int));
    assert(kp <= 7int ==> !present_inst(v, 7int));
    assert(kp <= 8int ==> !present_inst(v, 8int));
    assert(fill_inst(b, v, kp) == fill_inst(b2, v, 10int));
}

#[verifier::spinoff_prover]
proof fn lemma_inst_slot_10(s: Seq<u8>, i: int, kp: int, b: InstB, v: InstV)
    requires
        1 <= kp <= 10,
        forall|j: int| kp <= j < 10 ==> !present_inst(v, j),
        present_inst(v, 10),
        0 <= i,
        i + ser_inst_tail(10, v).len() <= s.len(),
        s.subrange(i, i + ser_inst_tail(10, v).len()) == ser_inst_tail(10, v),
    ensures
        sp_inst_fields(s, i, kp, b) == Some(
            (fill_inst(b, v, kp), i + ser_inst_tail(10, v).len()),
        ),
    decreases 11 - 10, 0int,
{
    lemma_inst_keys();
    let k = 10int;
    let tail2 = ser_inst_tail(k + 1, v);
    let key = k_logo();
    let val = jstr(v.logo->Some_0);
    assert(ser_inst_tail(k, v) =~= seq![0x2cu8] + mem_key(key) + val + tail2);
    lemma_member_common(s, i, key, val, tail2);
    let j1 = i + 4 + key.len();
    lemma_sp_str_rt(s, j1, v.logo->Some_0);
    let e = j1 + val.len() as int;
    let b2 = inst_set_str(b, 10, v.logo->Some_0);
    lemma_inst_fields_rt(s, e, 11int, 11int, b2, v);
    assert(sp_inst_fields(s, i, kp, b) == sp_inst_fields(s, e, 11int, b2));
    assert(kp <= 1int ==> !present_inst(v, 1int));
    assert(kp <= 2int ==> !present_inst(v, 2int));
    assert(kp <= 3int ==> !present_inst(v, 3int));
    assert(kp <= 4int ==> !present_inst(v, 4int));
    assert(kp <= 5int ==> !present_inst(v, 5int));
    assert(kp <= 6int ==> !present_inst(v, 6int));
    assert(kp <= 7int ==> !present_inst(v, 7int));
    assert(kp <= 8int ==> !present_inst(v, 8int));
    assert(kp <= 9int ==> !present_inst(v, 9int));
    assert(fill_inst(b, v, kp) == fill_inst(b2, v, 11int));
}

/// Reading back the installer members written from slot `k` on fills the
/// builder with exactly the present knobs.
pub proof fn lemma_inst_fields_rt(s: Seq<u8>, i: int, kp: int, k: int, b: InstB, v: InstV)
    requires
        1 <= kp <= k <= 11,
        forall|j: int| kp <= j < k ==> !present_inst(v, j),
        0 <= i,
        i + ser_inst_tail(k, v).len() <= s.len(),
        s.subrange(i, i + ser_inst_tail(k, v).len()) == ser_inst_tail(k, v),
    ensures
        sp_inst_fields(s, i, kp, b) == Some((fill_inst(b, v, kp), i + ser_inst_tail(k, v).len())),
    decreases 11 - k, 1int,
{
    if k == 11 {
        assert(s.subrange(i, i + 1)[0] == seq![0x7du8][0]);
        assert(s[i] == 0x7d);
        assert(kp <= 1int ==> !present_inst(v, 1int));
        assert(kp <= 2int ==> !present_inst(v, 2int));
        assert(kp <= 3int ==> !present_inst(v, 3int));
        assert(kp <= 4int ==> !present_inst(v, 4int));
        assert(kp <= 5int ==> !present_inst(v, 5int));
        assert(kp <= 6int ==> !present_inst(v, 6int));
        assert(kp <= 7int ==> !present_inst(v, 7int));
        assert(kp <= 8int ==> !present_inst(v, 8int));
        assert(kp <= 9int ==> !present_inst(v, 9int));
        assert(kp <= 10int ==> !present_inst(v, 10int));
        assert(fill_inst(b, v, kp) == b);
    } else if !present_inst(v, k) {
        assert(ser_inst_tail(k, v) =~= ser_inst_tail(k + 1, v));
        lemma_inst_fields_rt(s, i, kp, k + 1, b, v);
    } else {
        if k == 1 {
        lemma_inst_slot_1(s, i, kp, b, v);
    } else if k == 2 {
        lemma_inst_slot_2(s, i, kp, b, v);
    } else if k == 3 {
        lemma_inst_slot_3(s, i, kp, b, v);
    } else if k == 4 {
        lemma_inst_slot_4(s, i, kp, b, v);
    } else if k == 5 {
        lemma_inst_slot_5(s, i, kp, b, v);
    } else if k == 6 {
        lemma_inst_slot_6(s, i, kp, b, v);
    } else if k == 7 {
        lemma_inst_slot_7(s, i, kp, b, v);
    } else if k == 8 {
        lemma_inst_slot_8(s, i, kp, b, v);
    } else if k == 9 {
        lemma_inst_slot_9(s, i, kp, b, v);
    } else if k == 10 {
        lemma_inst_slot_10(s, i, kp, b, v);
    } else {
            assert(false);
        }
    }
}

/// Reading back a written installer block recovers it exactly.
#[verifier::spinoff_prover]
pub proof fn lemma_sp_inst_rt(s: Seq<u8>, i: int, iv: InstV)
    requires
        0 <= i,
        i + ser_inst(iv).len() <= s.len(),
        s.subrange(i, i + ser_inst(iv).len()) == ser_inst(iv),
    ensures
        sp_inst(s, i) == Some((iv, i + ser_inst(iv).len())),
    decreases 21int, 0int,
{
    lemma_inst_keys();
    let key = k_show_launch();
    lemma_esc_plain(key);
    assert(jstr(key) =~= seq![0x22u8] + key + seq![0x22u8]);
    let tail2 = ser_inst_tail(1, iv);
    let r1 = jstr(key) + (seq![0x3au8] + (jbool(iv.show_launch) + tail2));
    assert(ser_inst(iv) =~= seq![0x7bu8] + r1);
    lemma_split_at(s, i, seq![0x7bu8], r1);
    assert(s.subrange(i, i + 1)[0] == seq![0x7bu8][0]);
    let r2 = seq![0x3au8] + (jbool(iv.show_launch) + tail2);
    lemma_split_at(s, i + 1, jstr(key), r2);
    lemma_sp_str_rt(s, i + 1, key);
    let j = i + 3 + key.len();
    assert(jstr(key).len() == key.len() + 2);
    lemma_split_at(s, j, seq![0x3au8], jbool(iv.show_launch) + tail2);
    assert(s.subrange(j, j + 1)[0] == seq![0x3au8][0]);
    lemma_split_at(s, j + 1, jbool(iv.show_launch), tail2);
    lemma_sp_bool_rt(s, j + 1, iv.show_launch);
    let e = j + 1 + jbool(iv.show_launch).len();
    lemma_inst_fields_rt(s, e, 1int, 1int, inst_b0(), iv);
    assert(inst_finish(iv.show_launch, fill_inst(inst_b0(), iv, 1)) == iv);
}

#[verifier::spinoff_prover]
proof fn lemma_meta_slot_1(s: Seq<u8>, i: int, kp: int, b: MetaB, v: MetaV)
    requires
        1 <= kp <= 1,
        forall|j: int| kp <= j < 1 ==> !present_meta(v, j),
        present_meta(v, 1),
        0 <= i,
        i + ser_meta_tail(1, v).len() <= s.len(),
        s.subrange(i, i + ser_meta_tail(1, v).len()) == ser_meta_tail(1, v),
    ensures
        sp_fields(s, i, kp, b) == Some((fill_meta(b, v, kp), i + ser_meta_tail(1, v).len())),
    decreases 20 - 1, 0int,
{
    lemma_meta_keys();
    let k = 1int;
    let tail2 = ser_meta_tail(k + 1, v);
    let key = k_app_id();
    let val = jstr(v.app_id);
    assert(ser_meta_tail(k, v) =~= seq![0x2cu8] + mem_key(key) + val + tail2);
    lemma_member_common(s, i, key, val, tail2);
    let j1 = i + 4 + key.len();
    lemma_sp_str_rt(s, j1, v.app_id);
    let e = j1 + val.len() as int;
    let b2 = meta_set_str(b, 1, v.app_id);
    lemma_meta_fields_rt(s, e, 2int, 2int, b2, v);
    assert(sp_fields(s, i, kp, b) == sp_fields(s, e, 2int, b2));
    assert(fill_meta(b, v, kp) == fill_meta(b2, v, 2int));
}

#[verifier::spinoff_prover]
proof fn lemma_meta_slot_2(s: Seq<u8>, i: int, kp: int, b: MetaB, v: MetaV)
    requires
        1 <= kp <= 2,
        forall|j: int| kp <= j < 2 ==> !present_meta(v, j),
        present_meta(v, 2),
        0 <= i,
        i + ser_meta_tail(2, v).len() <= s.len(),
        s.subrange(i, i + ser_meta_tail(2, v).len()) == ser_meta_tail(2, v),
    ensures
        sp_fields(s, i, kp, b) == Some((fill_meta(b, v, kp), i + ser_meta_tail(2, v).len())),
    decreases 20 - 2, 0int,
{
    lemma_meta_keys();
    let k = 2int;
    let tail2 = ser_meta_tail(k + 1, v);
    let key = k_name();
    let val = jstr(v.name);
    assert(ser_meta_tail(k, v) =~= seq![0x2cu8] + mem_key(key) + val + tail2);
    lemma_member_common(s, i, key, val, tail2);
    let j1 = i + 4 + key.len();
    lemma_sp_str_rt(s, j1, v.name);
    let e = j1 + val.len() as int;
    let b2 = meta_set_str(b, 2, v.name);
    lemma_meta_fields_rt(s, e, 3int, 3int, b2, v);
    assert(sp_fields(s, i, kp, b) == sp_fields(s, e, 3int, b2));
    assert(kp <= 1int ==> !present_meta(v, 1int));
    assert(fill_meta(b, v, kp) == fill_meta(b2, v, 3int));
}

#[verifier::spinoff_prover]
proof fn lemma_meta_slot_3(s: Seq<u8>, i: int, kp: int, b: MetaB, v: MetaV)
    requires
        1 <= kp <= 3,
        forall|j: int| kp <= j < 3 ==> !present_meta(v, j),
        present_meta(v, 3),
        0 <= i,
        i + ser_meta_tail(3, v).len() <= s.len(),
        s.subrange(i, i + ser_meta_tail(3, v).len()) == ser_meta_tail(3, v),
    ensures
        sp_fields(s, i, kp, b) == Some((fill_meta(b, v, kp), i + ser_meta_tail(3, v).len())),
    decreases 20 - 3, 0int,
{
    lemma_meta_keys();
    let k = 3int;
    let tail2 = ser_meta_tail(k + 1, v);
    let key = k_version();
    let val = jstr(v.version);
    assert(ser_meta_tail(k, v) =~= seq![0x2cu8] + mem_key(key) + val + tail2);
    lemma_member_common(s, i, key, val, tail2);
    let j1 = i + 4 + key.len();
    lemma_sp_str_rt(s, j1, v.version);
    let e = j1 + val.len() as int;
    let b2 = meta_set_str(b, 3, v.version);
    lemma_meta_fields_rt(s, e, 4int, 4int, b2, v);
    assert(sp_fields(s, i, kp, b) == sp_fields(s, e, 4int, b2));
    assert(kp <= 1int ==> !present_meta(v, 1int));
    assert(kp <= 2int ==> !present_meta(v, 2int));
    assert(fill_meta(b, v, kp) == fill_meta(b2, v, 4int));
}

#[verifier::spinoff_prover]
proof fn lemma_meta_slot_4(s: Seq<u8>, i: int, kp: int, b: MetaB, v: MetaV)
    requires
        1 <= kp <= 4,
        forall|j: int| kp <= j < 4 ==> !present_meta(v, j),
        present_meta(v, 4),
        0 <= i,
        i + ser_meta_tail(4, v).len() <= s.len(),
        s.subrange(i, i + ser_meta_tail(4, v).len()) == ser_meta_tail(4, v),
    ensures
        sp_fields(s, i, kp, b) == Some((fill_meta(b, v, kp), i + ser_meta_tail(4, v).len())),
    decreases 20 - 4, 0int,
{
    lemma_meta_keys();
    let k = 4int;
    let tail2 = ser_meta_tail(k + 1, v);
    let key = k_arch();
    let val = jstr(v.arch);
    assert(ser_meta_tail(k, v) =~= seq![0x2cu8] + mem_key(key) + val + tail2);
    lemma_member_common(s, i, key, val, tail2);
    let j1 = i + 4 + key.len();
    lemma_sp_str_rt(s, j1, v.arch);
    let e = j1 + val.len() as int;
    let b2 = meta_set_str(b, 4, v.arch);
    lemma_meta_fields_rt(s, e, 5int, 5int, b2, v);
    assert(sp_fields(s, i, kp, b) == sp_fields(s, e, 5int, b2));
    assert(kp <= 1int ==> !present_meta(v, 1int));
    assert(kp <= 2int ==> !present_meta(v, 2int));
    assert(kp <= 3int ==> !present_meta(v, 3int));
    assert(fill_meta(b, v, kp) == fill_meta(b2, v, 5int));
}

#[verifier::spinoff_prover]
proof fn lemma_meta_slot_5(s: Seq<u8>, i: int, kp: int, b: MetaB, v: MetaV)
    requires
        1 <= kp <= 5,
        forall|j: int| kp <= j < 5 ==> !present_meta(v, j),
        present_meta(v, 5),
        0 <= i,
        i + ser_meta_tail(5, v).len() <= s.len(),
        s.subrange(i, i + ser_meta_tail(5, v).len()) == ser_meta_tail(5, v),
    ensures
        sp_fields(s, i, kp, b) == Some((fill_meta(b, v, kp), i + ser_meta_tail(5, v).len())),
    decreases 20 - 5, 0int,
{
    lemma_meta_keys();
    let k = 5int;
    let tail2 = ser_meta_tail(k + 1, v);
    let key = k_install_size();
    let val = dec_u64(v.install_size);
    assert(ser_meta_tail(k, v) =~= seq![0x2cu8] + mem_key(key) + val + tail2);
    lemma_member_common(s, i, key, val, tail2);
    let j1 = i + 4 + key.len();
    lemma_meta_tail_first(6, v);
    assert(s.subrange(j1 + val.len(), j1 + val.len() + tail2.len())[0] == tail2[0]);
    assert(!is_digit(s[j1 + val.len() as int]));
    lemma_sp_u64_rt(s, j1, v.install_size);
    let e = j1 + val.len() as int;
    let b2 = MetaB { install_size: Some(v.install_size), ..b };
    lemma_meta_fields_rt(s, e, 6int, 6int, b2, v);
    assert(sp_fields(s, i, kp, b) == sp_fields(s, e, 6int, b2));
    assert(kp <= 1int ==> !present_meta(v, 1int));
    assert(kp <= 2int ==> !present_meta(v, 2int));
    assert(kp <= 3int ==> !present_meta(v, 3int));
    assert(kp <= 4int ==> !present_meta(v, 4int));
    assert(fill_meta(b, v, kp) == fill_meta(b2, v, 6int));
}

#[verifier::spinoff_prover]
proof fn lemma_meta_slot_6(s: Seq<u8>, i: int, kp: int, b: MetaB, v: MetaV)
    requires
        1 <= kp <= 6,
        forall|j: int| kp <= j < 6 ==> !present_meta(v, j),
        present_meta(v, 6),
        0 <= i,
        i + ser_meta_tail(6, v).len() <= s.len(),
        s.subrange(i, i + ser_meta_tail(6, v).len()) == ser_meta_tail(6, v),
    ensures
        sp_fields(s, i, kp, b) == Some((fill_meta(b, v, kp), i + ser_meta_tail(6, v).len())),
    decreases 20 - 6, 0int,
{
    lemma_meta_keys();
    let k = 6int;
    let tail2 = ser_meta_tail(k + 1, v);
    let key = k_exec();
    let val = jstr(v.exec_path);
    assert(ser_meta_tail(k, v) =~= seq![0x2cu8] + mem_key(key) + val + tail2);
    lemma_member_common(s, i, key, val, tail2);
    let j1 = i + 4 + key.len();
    lemma_sp_str_rt(s, j1, v.exec_path);
    let e = j1 + val.len() as int;
    let b2 = meta_set_str(b, 6, v.exec_path);
    lemma_meta_fields_rt(s, e, 7int, 7int, b2, v);
    assert(sp_fields(s, i, kp, b) == sp_fields(s, e, 7int, b2));
    assert(kp <= 1int ==> !present_meta(v, 1int));
    assert(kp <= 2int ==> !present_meta(v, 2int));
    assert(kp <= 3int ==> !present_meta(v, 3int));
    assert(kp <= 4int ==> !present_meta(v, 4int));
    assert(kp <= 5int ==> !present_meta(v, 5int));
    assert(fill_meta(b, v, kp) == fill_meta(b2, v, 7int));
}

#[verifier::spinoff_prover]
proof fn lemma_meta_slot_7(s: Seq<u8>, i: int, kp: int, b: MetaB, v: MetaV)
    requires
        1 <= kp <= 7,
        forall|j: int| kp <= j < 7 ==> !present_meta(v, j),
        present_meta(v, 7),
        0 <= i,
        i + ser_meta_tail(7, v).len() <= s.len(),
        s.subrange(i, i + ser_meta_tail(7, v).len()) == ser_meta_tail(7, v),
    ensures
        sp_fields(s, i, kp, b) == Some((fill_meta(b, v, kp), i + ser_meta_tail(7, v).len())),
    decreases 20 - 7, 0int,
{
    lemma_meta_keys();
    let k = 7int;
    let tail2 = ser_meta_tail(k + 1, v);
    let key = k_icon();
    let val = jstr(v.icon->Some_0);
    assert(ser_meta_tail(k, v) =~= seq![0x2cu8] + mem_key(key) + val + tail2);
    lemma_member_common(s, i, key, val, tail2);
    let j1 = i + 4 + key.len();
    lemma_sp_str_rt(s, j1, v.icon->Some_0);
    let e = j1 + val.len() as int;
    let b2 = meta_set_str(b, 7, v.icon->Some_0);
    lemma_meta_fields_rt(s, e, 8int, 8int, b2, v);
    assert(sp_fields(s, i, kp, b) == sp_fields(s, e, 8int, b2));
    assert(kp <= 1int ==> !present_meta(v, 1int));
    assert(kp <= 2int ==> !present_meta(v, 2int));
    assert(kp <= 3int ==> !present_meta(v, 3int));
    assert(kp <= 4int ==> !present_meta(v, 4int));
    assert(kp <= 5int ==> !present_meta(v, 5int));
    assert(kp <= 6int ==> !present_meta(v, 6int));
    assert(fill_meta(b, v, kp) == fill_meta(b2, v, 8int));
}

#[verifier::spinoff_prover]
proof fn lemma_meta_slot_8(s: Seq<u8>, i: int, kp: int, b: MetaB, v: MetaV)
    requires
        1 <= kp <= 8,
        forall|j: int| kp <= j < 8 ==> !present_meta(v, j),
        present_meta(v, 8),
        0 <= i,
        i + ser_meta_tail(8, v).len() <= s.len(),
        s.subrange(i, i + ser_meta_tail(8, v).len()) == ser_meta_tail(8, v),
    ensures
        sp_fields(s, i, kp, b) == Some((fill_meta(b, v, kp), i + ser_meta_tail(8, v).len())),
    decreases 20 - 8, 0int,
{
    lemma_meta_keys();
    let k = 8int;
    let tail2 = ser_meta_tail(k + 1, v);
    let key = k_categories();
    let val = jarr(v.categories);
    assert(ser_meta_tail(k, v) =~= seq![0x2cu8] + mem_key(key) + val + tail2);
    lemma_member_common(s, i, key, val, tail2);
    let j1 = i + 4 + key.len();
    lemma_sp_arr_rt(s, j1, v.categories);
    let e = j1 + val.len() as int;
    let b2 = MetaB { categories: Some(v.categories), ..b };
    lemma_meta_fields_rt(s, e, 9int, 9int, b2, v);
    assert(sp_fields(s, i, kp, b) == sp_fields(s, e, 9int, b2));
    assert(kp <= 1int ==> !present_meta(v, 1int));
    assert(kp <= 2int ==> !present_meta(v, 2int));
    assert(kp <= 3int ==> !present_meta(v, 3int));
    assert(kp <= 4int ==> !present_meta(v, 4int));
    assert(kp <= 5int ==> !present_meta(v, 5int));
    assert(kp <= 6int ==> !present_meta(v, 6int));
    assert(kp <= 7int ==> !present_meta(v, 7int));
    assert(fill_meta(b, v, kp) == fill_meta(b2, v, 9int));
}

#[verifier::spinoff_prover]
proof fn lemma_meta_slot_9(s: Seq<u8>, i: int, kp: int, b: MetaB, v: MetaV)
    requires
        1 <= kp <= 9,
        forall|j: int| kp <= j < 9 ==> !present_meta(v, j),
        present_meta(v, 9),
        0 <= i,
        i + ser_meta_tail(9, v).len() <= s.len(),
        s.subrange(i, i + ser_meta_tail(9, v).len()) == ser_meta_tail(9, v),
    ensures
        sp_fields(s, i, kp, b) == Some((fill_meta(b, v, kp), i + ser_meta_tail(9, v).len())),
    decreases 20 - 9, 0int,
{
    lemma_meta_keys();
    let k = 9int;
    let tail2 = ser_meta_tail(k + 1, v);
    let key = k_description();
    let val = jstr(v.description->Some_0);
    assert(ser_meta_tail(k, v) =~= seq![0x2cu8] + mem_key(key) + val + tail2);
    lemma_member_common(s, i, key, val, tail2);
    let j1 = i + 4 + key.len();
    lemma_sp_str_rt(s, j1, v.description->Some_0);
    let e = j1 + val.len() as int;
    let b2 = meta_set_str(b, 9, v.description->Some_0);
    lemma_meta_fields_rt(s, e, 10int, 10int, b2, v);
    assert(sp_fields(s, i, kp, b) == sp_fields(s, e, 10int, b2));
    assert(kp <= 1int ==> !present_meta(v, 1int));
    assert(kp <= 2int ==> !present_meta(v, 2int));
    assert(kp <= 3int ==> !present_meta(v, 3int));
    assert(kp <= 4int ==> !present_meta(v, 4int));
    assert(kp <= 5int ==> !present_meta(v, 5int));
    assert(kp <= 6int ==> !present_meta(v, 6int));
    assert(kp <= 7int ==> !present_meta(v, 7int));
    assert(kp <= 8int ==> !present_meta(v, 8int));
    assert(fill_meta(b, v, kp) == fill_meta(b2, v, 10int));
}

#[verifier::spinoff_prover]
proof fn lemma_meta_slot_10(s: Seq<u8>, i: int, kp: int, b: MetaB, v: MetaV)
    requires
        1 <= kp <= 10,
        forall|j: int| kp <= j < 10 ==> !present_meta(v, j),
        present_meta(v, 10),
        0 <= i,
        i + ser_meta_tail(10, v).len() <= s.len(),
        s.subrange(i, i + ser_meta_tail(10, v).len()) == ser_meta_tail(10, v),
    ensures
        sp_fields(s, i, kp, b) == Some((fill_meta(b, v, kp), i + ser_meta_tail(10, v).len())),
    decreases 20 - 10, 0int,
{
    lemma_meta_keys();
    let k = 10int;
    let tail2 = ser_meta_tail(k + 1, v);
    let key = k_payload_checksum();
    let val = jstr(v.payload_checksum);
    assert(ser_meta_tail(k, v) =~= seq![0x2cu8] + mem_key(key) + val + tail2);
    lemma_member_common(s, i, key, val, tail2);
    let j1 = i + 4 + key.len();
    lemma_sp_str_rt(s, j1, v.payload_checksum);
    let e = j1 + val.len() as int;
    let b2 = meta_set_str(b, 10, v.payload_checksum);
    lemma_meta_fields_rt(s, e, 11int, 11int, b2, v);
    assert(sp_fields(s, i, kp, b) == sp_fields(s, e, 11int, b2));
    assert(kp <= 1int ==> !present_meta(v, 1int));
    assert(kp <= 2int ==> !present_meta(v, 2int));
    assert(kp <= 3int ==> !present_meta(v, 3int));
    assert(kp <= 4int ==> !present_meta(v, 4int));
    assert(kp <= 5int ==> !present_meta(v, 5int));
    assert(kp <= 6int ==> !present_meta(v, 6int));
    assert(kp <= 7int ==> !present_meta(v, 7int));
    assert(kp <= 8int ==> !present_meta(v, 8int));
    assert(kp <= 9int ==> !present_meta(v, 9int));
    assert(fill_meta(b, v, kp) == fill_meta(b2, v, 11int));
}

#[verifier::spinoff_prover]
proof fn lemma_meta_slot_11(s: Seq<u8>, i: int, kp: int, b: MetaB, v: MetaV)
    requires
        1 <= kp <= 11,
        forall|j: int| kp <= j < 11 ==> !present_meta(v, j),
        present_meta(v, 11),
        0 <= i,
        i + ser_meta_tail(11, v).len() <= s.len(),
        s.subrange(i, i + ser_meta_tail(11, v).len()) == ser_meta_tail(11, v),
    ensures
        sp_fields(s, i, kp, b) == Some((fill_meta(b, v, kp), i + ser_meta_tail(11, v).len())),
    decreases 20 - 11, 0int,
{
    lemma_meta_keys();
    let k = 11int;
    let tail2 = ser_meta_tail(k + 1, v);
    let key = k_min_runtime_version();
    let val = jstr(v.min_runtime_version->Some_0);
    assert(ser_meta_tail(k, v) =~= seq![0x2cu8] + mem_key(key) + val + tail2);
    lemma_member_common(s, i, key, val, tail2);
    let j1 = i + 4 + key.len();
    lemma_sp_str_rt(s, j1, v.min_runtime_version->Some_0);
    let e = j1 + val.len() as int;
    let b2 = meta_set_str(b, 11, v.min_runtime_version->Some_0);
    lemma_meta_fields_rt(s, e, 12int, 12int, b2, v);
    assert(sp_fields(s, i, kp, b) == sp_fields(s, e, 12int, b2));
    assert(kp <= 1int ==> !present_meta(v, 1int));
    assert(kp <= 2int ==> !present_meta(v, 2int));
    assert(kp <= 3int ==> !present_meta(v, 3int));
    assert(kp <= 4int ==> !present_meta(v, 4int));
    assert(kp <= 5int ==> !present_meta(v, 5int));
    assert(kp <= 6int ==> !present_meta(v, 6int));
    assert(kp <= 7int ==> !present_meta(v, 7int));
    assert(kp <= 8int ==> !present_meta(v, 8int));
    assert(kp <= 9int ==> !present_meta(v, 9int));
    assert(kp <= 10int ==> !present_meta(v, 10int));
    assert(fill_meta(b, v, kp) == fill_meta(b2, v, 12int));
}

#[verifier::spinoff_prover]
proof fn lemma_meta_slot_12(s: Seq<u8>, i: int, kp: int, b: MetaB, v: MetaV)
    requires
        1 <= kp <= 12,
        forall|j: int| kp <= j < 12 ==> !present_meta(v, j),
        present_meta(v, 12),
        0 <= i,
        i + ser_meta_tail(12, v).len() <= s.len(),
        s.subrange(i, i + ser_meta_tail(12, v).len()) == ser_meta_tail(12, v),
    ensures
        sp_fields(s, i, kp, b) == Some((fill_meta(b, v, kp), i + ser_meta_tail(12, v).len())),
    decreases 20 - 12, 0int,
{
    lemma_meta_keys();
    let k = 12int;
    let tail2 = ser_meta_tail(k + 1, v);
    let key = k_license();
    let val = jstr(v.license->Some_0);
    assert(ser_meta_tail(k, v) =~= seq![0x2cu8] + mem_key(key) + val + tail2);
    lemma_member_common(s, i, key, val, tail2);
    let j1 = i + 4 + key.len();
    lemma_sp_str_rt(s, j1, v.license->Some_0);
    let e = j1 + val.len() as int;
    let b2 = meta_set_str(b, 12, v.license->Some_0);
    lemma_meta_fields_rt(s, e, 13int, 13int, b2, v);
    assert(sp_fields(s, i, kp, b) == sp_fields(s, e, 13int, b2));
    assert(kp <= 1int ==> !present_meta(v, 1int));
    assert(kp <= 2int ==> !present_meta(v, 2int));
    assert(kp <= 3int ==> !present_meta(v, 3int));
    assert(kp <= 4int ==> !present_meta(v, 4int));
    assert(kp <= 5int ==> !present_meta(v, 5int));
    assert(kp <= 6int ==> !present_meta(v, 6int));
    assert(kp <= 7int ==> !present_meta(v, 7int));
    assert(kp <= 8int ==> !present_meta(v, 8int));
    assert(kp <= 9int ==> !present_meta(v, 9int));
    assert(kp <= 10int ==> !present_meta(v, 10int));
    assert(kp <= 11int ==> !present_meta(v, 11int));
    assert(fill_meta(b, v, kp) == fill_meta(b2, v, 13int));
}

#[verifier::spinoff_prover]
proof fn lemma_meta_slot_13(s: Seq<u8>, i: int, kp: int, b: MetaB, v: MetaV)
    requires
        1 <= kp <= 13,
        forall|j: int| kp <= j < 13 ==> !present_meta(v, j),
        present_meta(v, 13),
        0 <= i,
        i + ser_meta_tail(13, v).len() <= s.len(),
        s.subrange(i, i + ser_meta_tail(13, v).len()) == ser_meta_tail(13, v),
    ensures
        sp_fields(s, i, kp, b) == Some((fill_meta(b, v, kp), i + ser_meta_tail(13, v).len())),
    decreases 20 - 13, 0int,
{
    lemma_meta_keys();
    let k = 13int;
    let tail2 = ser_meta_tail(k + 1, v);
    let key = k_homepage();
    let val = jstr(v.homepage->Some_0);
    assert(ser_meta_tail(k, v) =~= seq![0x2cu8] + mem_key(key) + val + tail2);
    lemma_member_common(s, i, key, val, tail2);
    let j1 = i + 4 + key.len();
    lemma_sp_str_rt(s, j1, v.homepage->Some_0);
    let e = j1 + val.len() as int;
    let b2 = meta_set_str(b, 13, v.homepage->Some_0);
    lemma_meta_fields_rt(s, e, 14int, 14int, b2, v);
    assert(sp_fields(s, i, kp, b) == sp_fields(s, e, 14int, b2));
    assert(kp <= 1int ==> !present_meta(v, 1int));
    assert(kp <= 2int ==> !present_meta(v, 2int));
    assert(kp <= 3int ==> !present_meta(v, 3int));
    assert(kp <= 4int ==> !present_meta(v, 4int));
    assert(kp <= 5int ==> !present_meta(v, 5int));
    assert(kp <= 6int ==> !present_meta(v, 6int));
    assert(kp <= 7int ==> !present_meta(v, 7int));
    assert(kp <= 8int ==> !present_meta(v, 8int));
    assert(kp <= 9int ==> !present_meta(v, 9int));
    assert(kp <= 10int ==> !present_meta(v, 10int));
    assert(kp <= 11int ==> !present_meta(v, 11int));
    assert(kp <= 12int ==> !present_meta(v, 12int));
    assert(fill_meta(b, v, kp) == fill_meta(b2, v, 14int));
}

#[verifier::spinoff_prover]
proof fn lemma_meta_slot_14(s: Seq<u8>, i: int, kp: int, b: MetaB, v: MetaV)
    requires
        1 <= kp <= 14,
        forall|j: int| kp <= j < 14 ==> !present_meta(v, j),
        present_meta(v, 14),
        0 <= i,
        i + ser_meta_tail(14, v).len() <= s.len(),
        s.subrange(i, i + ser_meta_tail(14, v).len()) == ser_meta_tail(14, v),
    ensures
        sp_fields(s, i, kp, b) == Some((fill_meta(b, v, kp), i + ser_meta_tail(14, v).len())),
    decreases 20 - 14, 0int,
{
    lemma_meta_keys();
    let k = 14int;
    let tail2 = ser_meta_tail(k + 1, v);
    let key = k_exec_args();
    let val = jstr(v.exec_args->Some_0);
    assert(ser_meta_tail(k, v) =~= seq![0x2cu8] + mem_key(key) + val + tail2);
    lemma_member_common(s, i, key, val, tail2);
    let j1 = i + 4 + key.len();
    lemma_sp_str_rt(s, j1, v.exec_args->Some_0);
    let e = j1 + val.len() as int;
    let b2 = meta_set_str(b, 14, v.exec_args->Some_0);
    lemma_meta_fields_rt(s, e, 15int, 15int, b2, v);
    assert(sp_fields(s, i, kp, b) == sp_fields(s, e, 15int, b2));
    assert(kp <= 1int ==> !present_meta(v, 1int));
    assert(kp <= 2int ==> !present_meta(v, 2int));
    assert(kp <= 3int ==> !present_meta(v, 3int));
    assert(kp <= 4int ==> !present_meta(v, 4int));
    assert(kp <= 5int ==> !present_meta(v, 5int));
    assert(kp <= 6int ==> !present_meta(v, 6int));
    assert(kp <= 7int ==> !present_meta(v, 7int));
    assert(kp <= 8int ==> !present_meta(v, 8int));
    assert(kp <= 9int ==> !present_meta(v, 9int));
    assert(kp <= 10int ==> !present_meta(v, 10int));
    assert(kp <= 11int ==> !present_meta(v, 11int));
    assert(kp <= 12int ==> !present_meta(v, 12int));
    assert(kp <= 13int ==> !present_meta(v, 13int));
    assert(fill_meta(b, v, kp) == fill_meta(b2, v, 15int));
}

#[verifier::spinoff_prover]
proof fn lemma_meta_slot_15(s: Seq<u8>, i: int, kp: int, b: MetaB, v: MetaV)
    requires
        1 <= kp <= 15,
        forall|j: int| kp <= j < 15 ==> !present_meta(v, j),
        present_meta(v, 15),
        0 <= i,
        i + ser_meta_tail(15, v).len() <= s.len(),
        s.subrange(i, i + ser_meta_tail(15, v).len()) == ser_meta_tail(15, v),
    ensures
        sp_fields(s, i, kp, b) == Some((fill_meta(b, v, kp), i + ser_meta_tail(15, v).len())),
    decreases 20 - 15, 0int,
{
    lemma_meta_keys();
    let k = 15int;
    let tail2 = ser_meta_tail(k + 1, v);
    let key = k_terminal();
    let val = jbool(v.terminal);
    assert(ser_meta_tail(k, v) =~= seq![0x2cu8] + mem_key(key) + val + tail2);
    lemma_member_common(s, i, key, val, tail2);
    let j1 = i + 4 + key.len();
    lemma_sp_bool_rt(s, j1, v.terminal);
    let e = j1 + val.len() as int;
    let b2 = MetaB { terminal: Some(v.terminal), ..b };
    lemma_meta_fields_rt(s, e, 16int, 16int, b2, v);
    assert(sp_fields(s, i, kp, b) == sp_fields(s, e, 16int, b2));
    assert(kp <= 1int ==> !present_meta(v, 1int));
    assert(kp <= 2int ==> !present_meta(v, 2int));
    assert(kp <= 3int ==> !present_meta(v, 3int));
    assert(kp <= 4int ==> !present_meta(v, 4int));
    assert(kp <= 5int ==> !present_meta(v, 5int));
    assert(kp <= 6int ==> !present_meta(v, 6int));
    assert(kp <= 7int ==> !present_meta(v, 7int));
    assert(kp <= 8int ==> !present_meta(v, 8int));
    assert(kp <= 9int ==> !present_meta(v, 9int));
    assert(kp <= 10int ==> !present_meta(v, 10int));
    assert(kp <= 11int ==> !present_meta(v, 11int));
    assert(kp <= 12int ==> !present_meta(v, 12int));
    assert(kp <= 13int ==> !present_meta(v, 13int));
    assert(kp <= 14int ==> !present_meta(v, 14int));
    assert(fill_meta(b, v, kp) == fill_meta(b2, v, 16int));
}

#[verifier::spinoff_prover]
proof fn lemma_meta_slot_16(s: Seq<u8>, i: int, kp: int, b: MetaB, v: MetaV)
    requires
        1 <= kp <= 16,
        forall|j: int| kp <= j < 16 ==> !present_meta(v, j),
        present_meta(v, 16),
        0 <= i,
        i + ser_meta_tail(16, v).len() <= s.len(),
        s.subrange(i, i + ser_meta_tail(16, v).len()) == ser_meta_tail(16, v),
    ensures
        sp_fields(s, i, kp, b) == Some((fill_meta(b, v, kp), i + ser_meta_tail(16, v).len())),
    decreases 20 - 16, 0int,
{
    lemma_meta_keys();
    let k = 16int;
    let tail2 = ser_meta_tail(k + 1, v);
    let key = k_wm_class();
    let val = jstr(v.wm_class->Some_0);
    assert(ser_meta_tail(k, v) =~= seq![0x2cu8] + mem_key(key) + val + tail2);
    lemma_member_common(s, i, key, val, tail2);
    let j1 = i + 4 + key.len();
    lemma_sp_str_rt(s, j1, v.wm_class->Some_0);
    let e = j1 + val.len() as int;
    let b2 = meta_set_str(b, 16, v.wm_class->Some_0);
    lemma_meta_fields_rt(s, e, 17int, 17int, b2, v);
    assert(sp_fields(s, i, kp, b) == sp_fields(s, e, 17int, b2));
    assert(kp <= 1int ==> !present_meta(v, 1int));
    assert(kp <= 2int ==> !present_meta(v, 2int));
    assert(kp <= 3int ==> !present_meta(v, 3int));
    assert(kp <= 4int ==> !present_meta(v, 4int));
    assert(kp <= 5int ==> !present_meta(v, 5int));
    assert(kp <= 6int ==> !present_meta(v, 6int));
    assert(kp <= 7int ==> !present_meta(v, 7int));
    assert(kp <= 8int ==> !present_meta(v, 8int));
    assert(kp <= 9int ==> !present_meta(v, 9int));
    assert(kp <= 10int ==> !present_meta(v, 10int));
    assert(kp <= 11int ==> !present_meta(v, 11int));
    assert(kp <= 12int ==> !present_meta(v, 12int));
    assert(kp <= 13int ==> !present_meta(v, 13int));
    assert(kp <= 14int ==> !present_meta(v, 14int));
    assert(kp <= 15int ==> !present_meta(v, 15int));
    assert(fill_meta(b, v, kp) == fill_meta(b2, v, 17int));
}

#[verifier::spinoff_prover]
proof fn lemma_meta_slot_17(s: Seq<u8>, i: int, kp: int, b: MetaB, v: MetaV)
    requires
        1 <= kp <= 17,
        forall|j: int| kp <= j < 17 ==> !present_meta(v, j),
        present_meta(v, 17),
        0 <= i,
        i + ser_meta_tail(17, v).len() <= s.len(),
        s.subrange(i, i + ser_meta_tail(17, v).len()) == ser_meta_tail(17, v),
    ensures
        sp_fields(s, i, kp, b) == Some((fill_meta(b, v, kp), i + ser_meta_tail(17, v).len())),
    decreases 20 - 17, 0int,
{
    lemma_meta_keys();
    let k = 17int;
    let tail2 = ser_meta_tail(k + 1, v);
    let key = k_installer();
    let val = ser_inst(v.installer->Some_0);
    assert(ser_meta_tail(k, v) =~= seq![0x2cu8] + mem_key(key) + val + tail2);
    lemma_member_common(s, i, key, val, tail2);
    let j1 = i + 4 + key.len();
    lemma_sp_inst_rt(s, j1, v.installer->Some_0);
    let e = j1 + val.len() as int;
    let b2 = MetaB { installer: Some(v.installer->Some_0), ..b };
    lemma_meta_fields_rt(s, e, 18int, 18int, b2, v);
    assert(sp_fields(s, i, kp, b) == sp_fields(s, e, 18int, b2));
    assert(kp <= 1int ==> !present_meta(v, 1int));
    assert(kp <= 2int ==> !present_meta(v, 2int));
    assert(kp <= 3int ==> !present_meta(v, 3int));
    assert(kp <= 4int ==> !present_meta(v, 4int));
    assert(kp <= 5int ==> !present_meta(v, 5int));
    assert(kp <= 6int ==> !present_meta(v, 6int));
    assert(kp <= 7int ==> !present_meta(v, 7int));
    assert(kp <= 8int ==> !present_meta(v, 8int));
    assert(kp <= 9int ==> !present_meta(v, 9int));
    assert(kp <= 10int ==> !present_meta(v, 10int));
    assert(kp <= 11int ==> !present_meta(v, 11int));
    assert(kp <= 12int ==> !present_meta(v, 12int));
    assert(kp <= 13int ==> !present_meta(v, 13int));
    assert(kp <= 14int ==> !present_meta(v, 14int));
    assert(kp <= 15int ==> !present_meta(v, 15int));
    assert(kp <= 16int ==> !present_meta(v, 16int));
    assert(fill_meta(b, v, kp) == fill_meta(b2, v, 18int));
}

#[verifier::spinoff_prover]
proof fn lemma_meta_slot_18(s: Seq<u8>, i: int, kp: int, b: MetaB, v: MetaV)
    requires
        1 <= kp <= 18,
        forall|j: int| kp <= j < 18 ==> !present_meta(v, j),
        present_meta(v, 18),
        0 <= i,
        i + ser_meta_tail(18, v).len() <= s.len(),
        s.subrange(i, i + ser_meta_tail(18, v).len()) == ser_meta_tail(18, v),
    ensures
        sp_fields(s, i, kp, b) == Some((fill_meta(b, v, kp), i + ser_meta_tail(18, v).len())),
    decreases 20 - 18, 0int,
{
    lemma_meta_keys();
    let k = 18int;
    let tail2 = ser_meta_tail(k + 1, v);
    let key = k_public_key();
    let val = jstr(v.public_key->Some_0);
    assert(ser_meta_tail(k, v) =~= seq![0x2cu8] + mem_key(key) + val + tail2);
    lemma_member_common(s, i, key, val, tail2);
    let j1 = i + 4 + key.len();
    lemma_sp_str_rt(s, j1, v.public_key->Some_0);
    let e = j1 + val.len() as int;
    let b2 = meta_set_str(b, 18, v.public_key->Some_0);
    lemma_meta_fields_rt(s, e, 19int, 19int, b2, v);
    assert(sp_fields(s, i, kp, b) == sp_fields(s, e, 19int, b2));
    assert(kp <= 1int ==> !present_meta(v, 1int));
    assert(kp <= 2int ==> !present_meta(v, 2int));
    assert(kp <= 3int ==> !present_meta(v, 3int));
    assert(kp <= 4int ==> !present_meta(v, 4int));
    assert(kp <= 5int ==> !present_meta(v, 5int));
    assert(kp <= 6int ==> !present_meta(v, 6int));
    assert(kp <= 7int ==> !present_meta(v, 7int));
    assert(kp <= 8int ==> !present_meta(v, 8int));
    assert(kp <= 9int ==> !present_meta(v, 9int));
    assert(kp <= 10int ==> !present_meta(v, 10int));
    assert(kp <= 11int ==> !present_meta(v, 11int));
    assert(kp <= 12int ==> !present_meta(v, 12int));
    assert(kp <= 13int ==> !present_meta(v, 13int));
    assert(kp <= 14int ==> !present_meta(v, 14int));
    assert(kp <= 15int ==> !present_meta(v, 15int));
    assert(kp <= 16int ==> !present_meta(v, 16int));
    assert(kp <= 17int ==> !present_meta(v, 17int));
    assert(fill_meta(b, v, kp) == fill_meta(b2, v, 19int));
}

#[verifier::spinoff_prover]
proof fn lemma_meta_slot_19(s: Seq<u8>, i: int, kp: int, b: MetaB, v: MetaV)
    requires
        1 <= kp <= 19,
        forall|j: int| kp <= j < 19 ==> !present_meta(v, j),
        present_meta(v, 19),
        0 <= i,
        i + ser_meta_tail(19, v).len() <= s.len(),
        s.subrange(i, i + ser_meta_tail(19, v).len()) == ser_meta_tail(19, v),
    ensures
        sp_fields(s, i, kp, b) == Some((fill_meta(b, v, kp), i + ser_meta_tail(19, v).len())),
    decreases 20 - 19, 0int,
{
    lemma_meta_keys();
    let k = 19int;
    let tail2 = ser_meta_tail(k + 1, v);
    let key = k_signature();
    let val = jstr(v.signature->Some_0);
    assert(ser_meta_tail(k, v) =~= seq![0x2cu8] + mem_key(key) + val + tail2);
    lemma_member_common(s, i, key, val, tail2);
    let j1 = i + 4 + key.len();
    lemma_sp_str_rt(s, j1, v.signature->Some_0);
    let e = j1 + val.len() as int;
    let b2 = meta_set_str(b, 19, v.signature->Some_0);
    lemma_meta_fields_rt(s, e, 20int, 20int, b2, v);
    assert(sp_fields(s, i, kp, b) == sp_fields(s, e, 20int, b2));
    assert(kp <= 1int ==> !present_meta(v, 1int));
    assert(kp <= 2int ==> !present_meta(v, 2int));
    assert(kp <= 3int ==> !present_meta(v, 3int));
    assert(kp <= 4int ==> !present_meta(v, 4int));
    assert(kp <= 5int ==> !present_meta(v, 5int));
    assert(kp <= 6int ==> !present_meta(v, 6int));
    assert(kp <= 7int ==> !present_meta(v, 7int));
    assert(kp <= 8int ==> !present_meta(v, 8int));
    assert(kp <= 9int ==> !present_meta(v, 9int));
    assert(kp <= 10int ==> !present_meta(v, 10int));
    assert(kp <= 11int ==> !present_meta(v, 11int));
    assert(kp <= 12int ==> !present_meta(v, 12int));
    assert(kp <= 13int ==> !present_meta(v, 13int));
    assert(kp <= 14int ==> !present_meta(v, 14int));
    assert(kp <= 15int ==> !present_meta(v, 15int));
    assert(kp <= 16int ==> !present_meta(v, 16int));
    assert(kp <= 17int ==> !present_meta(v, 17int));
    assert(kp <= 18int ==> !present_meta(v, 18int));
    assert(fill_meta(b, v, kp) == fill_meta(b2, v, 20int));
}

/// Reading back the metadata members written from slot `k` on fills the
/// builder with exactly the present fields.
pub proof fn lemma_meta_fields_rt(s: Seq<u8>, i: int, kp: int, k: int, b: MetaB, v: MetaV)
    requires
        1 <= kp <= k <= 20,
        forall|j: int| kp <= j < k ==> !present_meta(v, j),
        0 <= i,
        i + ser_meta_tail(k, v).len() <= s.len(),
        s.subrange(i, i + ser_meta_tail(k, v).len()) == ser_meta_tail(k, v),
    ensures
        sp_fields(s, i, kp, b) == Some((fill_meta(b, v, kp), i + ser_meta_tail(k, v).len())),
    decreases 20 - k, 1int,
{
    if k == 20 {
        assert(s.subrange(i, i + 1)[0] == seq![0x7du8][0]);
        assert(s[i] == 0x7d);
        assert(kp <= 1int ==> !present_meta(v, 1int));
        assert(kp <= 2int ==> !present_meta(v, 2int));
        assert(kp <= 3int ==> !present_meta(v, 3int));
        assert(kp <= 4int ==> !present_meta(v, 4int));
        assert(kp <= 5int ==> !present_meta(v, 5int));
        assert(kp <= 6int ==> !present_meta(v, 6int));
        assert(kp <= 7int ==> !present_meta(v, 7int));
        assert(kp <= 8int ==> !present_meta(v, 8int));
        assert(kp <= 9int ==> !present_meta(v, 9int));
        assert(kp <= 10int ==> !present_meta(v, 10int));
        assert(kp <= 11int ==> !present_meta(v, 11int));
        assert(kp <= 12int ==> !present_meta(v, 12int));
        assert(kp <= 13int ==> !present_meta(v, 13int));
        assert(kp <= 14int ==> !present_meta(v, 14int));
        assert(kp <= 15int ==> !present_meta(v, 15int));
        assert(kp <= 16int ==> !present_meta(v, 16int));
        assert(kp <= 17int ==> !present_meta(v, 17int));
        assert(kp <= 18int ==> !present_meta(v, 18int));
        assert(kp <= 19int ==> !present_meta(v, 19int));
        assert(fill_meta(b, v, kp) == b);
    } else if !present_meta(v, k) {
        assert(meta_seg(k, v) =~= Seq::<u8>::empty());
        assert(ser_meta_tail(k, v) =~= ser_meta_tail(k + 1, v));
        lemma_meta_fields_rt(s, i, kp, k + 1, b, v);
    } else {
        if k == 1 {
        lemma_meta_slot_1(s, i, kp, b, v);
    } else if k == 2 {
        lemma_meta_slot_2(s, i, kp, b, v);
    } else if k == 3 {
        lemma_meta_slot_3(s, i, kp, b, v);
    } else if k == 4 {
        lemma_meta_slot_4(s, i, kp, b, v);
    } else if k == 5 {
        lemma_meta_slot_5(s, i, kp, b, v);
    } else if k == 6 {
        lemma_meta_slot_6(s, i, kp, b, v);
    } else if k == 7 {
        lemma_meta_slot_7(s, i, kp, b, v);
    } else if k == 8 {
        lemma_meta_slot_8(s, i, kp, b, v);
    } else if k == 9 {
        lemma_meta_slot_9(s, i, kp, b, v);
    } else if k == 10 {
        lemma_meta_slot_10(s, i, kp, b, v);
    } else if k == 11 {
        lemma_meta_slot_11(s, i, kp, b, v);
    } else if k == 12 {
        lemma_meta_slot_12(s, i, kp, b, v);
    } else if k == 13 {
        lemma_meta_slot_13(s, i, kp, b, v);
    } else if k == 14 {
        lemma_meta_slot_14(s, i, kp, b, v);
    } else if k == 15 {
        lemma_meta_slot_15(s, i, kp, b, v);
    } else if k == 16 {
        lemma_meta_slot_16(s, i, kp, b, v);
    } else if k == 17 {
        lemma_meta_slot_17(s, i, kp, b, v);
    } else if k == 18 {
        lemma_meta_slot_18(s, i, kp, b, v);
    } else if k == 19 {
        lemma_meta_slot_19(s, i, kp, b, v);
    } else {
            assert(false);
        }
    }
}

/// Round trip: parsing the canonical serialization of any metadata object
/// recovers that object exactly.
#[verifier::spinoff_prover]
pub proof fn lemma_meta_round_trip(v: MetaV)
    ensures
        sp_meta(ser_meta(v)) == Some(v),
{
    lemma_meta_keys();
    let s = ser_meta(v);
    let key = k_format_version();
    lemma_esc_plain(key);
    assert(jstr(key) =~= seq![0x22u8] + key + seq![0x22u8]);
    let fv = dec_u64(v.format_version as u64);
    let tail2 = ser_meta_tail(1, v);
    let r1 = jstr(key) + (seq![0x3au8] + (fv + tail2));
    assert(s =~= seq![0x7bu8] + r1);
    assert(s.subrange(0, s.len() as int) =~= s);
    lemma_split_at(s, 0, seq![0x7bu8], r1);
    assert(s.subrange(0, 1)[0] == seq![0x7bu8][0]);
    let r2 = seq![0x3au8] + (fv + tail2);
    lemma_split_at(s, 1, jstr(key), r2);
    lemma_sp_str_rt(s, 1, key);
    let j = 3 + key.len() as int;
    assert(jstr(key).len() == key.len() + 2);
    lemma_split_at(s, j, seq![0x3au8], fv + tail2);
    assert(s.subrange(j, j + 1)[0] == seq![0x3au8][0]);
    lemma_split_at(s, j + 1, fv, tail2);
    lemma_meta_tail_first(1, v);
    assert(s.subrange(j + 1 + fv.len(), j + 1 + fv.len() + tail2.len())[0] == tail2[0]);
    assert(!is_digit(s[j + 1 + fv.len() as int]));
    lemma_sp_u64_rt(s, j + 1, v.format_version as u64);
    let e = j + 1 + fv.len() as int;
    lemma_meta_fields_rt(s, e, 1int, 1int, meta_b0(), v);
    assert(e + tail2.len() == s.len());
    assert(meta_finish(v.format_version as u64, fill_meta(meta_b0(), v, 1)) == Some(v));
}

} // verus!

verus! {

/// Partial installer block while parsing.
struct InstFields {
    allow_custom_dir: Option<bool>,
    welcome_title: Option<Vec<u8>>,
    welcome_text: Option<Vec<u8>>,
    finish_title: Option<Vec<u8>>,
    finish_text: Option<Vec<u8>>,
    accent_color: Option<Vec<u8>>,
    theme: Option<Vec<u8>>,
    license_text: Option<Vec<u8>>,
    banner: Option<Vec<u8>>,
    logo: Option<Vec<u8>>,
}

impl InstFields {
    spec fn bview(&self) -> InstB {
        InstB {
            allow_custom_dir: self.allow_custom_dir,
            welcome_title: opt_view(self.welcome_title),
            welcome_text: opt_view(self.welcome_text),
            finish_title: opt_view(self.finish_title),
            finish_text: opt_view(self.finish_text),
            accent_color: opt_view(self.accent_color),
            theme: opt_view(self.theme),
            license_text: opt_view(self.license_text),
            banner: opt_view(self.banner),
            logo: opt_view(self.logo),
        }
    }
}

/// Parses an installer block starting at `i`.
#[verifier::rlimit(100)]
pub fn parse_installer(s: &Vec<u8>, i: usize) -> (r: Result<(InstallerMetadata, usize), LxeError>)
    ensures
        match r {
            Ok(vj) => sp_inst(s@, i as int) == Some((vj.0@, vj.1 as int)) && i < vj.1 <= s@.len(),
            Err(e) => sp_inst(s@, i as int) is None && e == LxeError::MetadataParseError,
        },
{
    let n = s.len();
    if i >= n || s[i] != 0x7b {
        return Err(LxeError::MetadataParseError);
    }
    let (key0, j0) = match parse_jstr(s, i + 1) {
        Ok(x) => x,
        Err(e) => {
            return Err(e);
        },
    };
    proof {
        reveal_strlit("show_launch");
        assert(vstd::string::is_ascii("show_launch"));
    }
    if !key_is(&key0, "show_launch") {
        return Err(LxeError::MetadataParseError);
    }
    if !(j0 < n && s[j0] == 0x3a) {
        return Err(LxeError::MetadataParseError);
    }
    let (sl, e0) = match parse_jbool(s, j0 + 1) {
        Ok(x) => x,
        Err(e) => {
            return Err(e);
        },
    };
    let mut b = InstFields {
        allow_custom_dir: None,
        welcome_title: None,
        welcome_text: None,
        finish_title: None,
        finish_text: None,
        accent_color: None,
        theme: None,
        license_text: None,
        banner: None,
        logo: None,
    };
    let mut p: usize = e0;
    let mut k: usize = 1;
    proof {
        assert(b.bview() == inst_b0());
    }
    loop
        invariant
            i < e0 <= p <= n,
            n == s@.len(),
            1 <= k <= 11,
            sp_inst(s@, i as int) == (match sp_inst_fields(s@, p as int, k as int, b.bview()) {
                Some(bz) => Some((inst_finish(sl, bz.0), bz.1)),
                None => None::<(InstV, int)>,
            }),
        decreases n - p,
    {
        if p >= n {
            return Err(LxeError::MetadataParseError);
        }
        let c = s[p];
        if c == 0x7d {
            let out = InstallerMetadata {
                show_launch: sl,
                allow_custom_dir: match b.allow_custom_dir {
                    Some(x) => x,
                    None => false,
                },
                welcome_title: b.welcome_title,
                welcome_text: b.welcome_text,
                finish_title: b.finish_title,
                finish_text: b.finish_text,
                accent_color: b.accent_color,
                theme: b.theme,
                license_text: b.license_text,
                banner: b.banner,
                logo: b.logo,
            };
            proof {
                assert(out@ == inst_finish(sl, b.bview()));
            }
            return Ok((out, p + 1));
        }
        if c != 0x2c {
            return Err(LxeError::MetadataParseError);
        }
        let (key, j) = match parse_jstr(s, p + 1) {
            Ok(x) => x,
            Err(e) => {
                return Err(e);
            },
        };
        if !(j < n && s[j] == 0x3a) {
            return Err(LxeError::MetadataParseError);
        }
        let ki: i32 = inst_key_index(&key);
        if ki < 0 {
            let e2 = match skip_value(s, j + 1, 8) {
                Ok(x) => x,
                Err(e) => {
                    return Err(e);
                },
            };
            p = e2;
        } else if (ki as usize) < k {
            return Err(LxeError::MetadataParseError);
        } else if ki == 1 {
            let (x, e2) = match parse_jbool(s, j + 1) {
                Ok(x) => x,
                Err(e) => {
                    return Err(e);
                },
            };
            b = InstFields { allow_custom_dir: Some(x), ..b };
            k = 2;
            p = e2;
        } else {
            let (x, e2) = match parse_jstr(s, j + 1) {
                Ok(x) => x,
                Err(e) => {
                    return Err(e);
                },
            };
            if ki == 2 {
                b = InstFields { welcome_title: Some(x), ..b };
            } else if ki == 3 {
                b = InstFields { welcome_text: Some(x), ..b };
            } else if ki == 4 {
                b = InstFields { finish_title: Some(x), ..b };
            } else if ki == 5 {
                b = InstFields { finish_text: Some(x), ..b };
            } else if ki == 6 {
                b = InstFields { accent_color: Some(x), ..b };
            } else if ki == 7 {
                b = InstFields { theme: Some(x), ..b };
            } else if ki == 8 {
                b = InstFields { license_text: Some(x), ..b };
            } else if ki == 9 {
                b = InstFields { banner: Some(x), ..b };
            } else if ki == 10 {
                b = InstFields { logo: Some(x), ..b };
            } else {
                return Err(LxeError::MetadataParseError);
            }
            k = (ki as usize) + 1;
            p = e2;
        }
    }
}

} // verus!

verus! {

/// Partial metadata while parsing.
struct MetaFields {
    app_id: Option<Vec<u8>>,
    name: Option<Vec<u8>>,
    version: Option<Vec<u8>>,
    arch: Option<Vec<u8>>,
    install_size: Option<u64>,
    exec_path: Option<Vec<u8>>,
    icon: Option<Vec<u8>>,
    categories: Option<Vec<Vec<u8>>>,
    description: Option<Vec<u8>>,
    payload_checksum: Option<Vec<u8>>,
    min_runtime_version: Option<Vec<u8>>,
    license: Option<Vec<u8>>,
    homepage: Option<Vec<u8>>,
    exec_args: Option<Vec<u8>>,
    terminal: Option<bool>,
    wm_class: Option<Vec<u8>>,
    installer: Option<InstallerMetadata>,
    public_key: Option<Vec<u8>>,
    signature: Option<Vec<u8>>,
}

impl MetaFields {
    spec fn bview(&self) -> MetaB {
        MetaB {
            app_id: opt_view(self.app_id),
            name: opt_view(self.name),
            version: opt_view(self.version),
            arch: opt_view(self.arch),
            install_size: self.install_size,
            exec_path: opt_view(self.exec_path),
            icon: opt_view(self.icon),
            categories: match self.categories {
                Some(c) => Some(c.deep_view()),
                None => None,
            },
            description: opt_view(self.description),
            payload_checksum: opt_view(self.payload_checksum),
            min_runtime_version: opt_view(self.min_runtime_version),
            license: opt_view(self.license),
            homepage: opt_view(self.homepage),
            exec_args: opt_view(self.exec_args),
            terminal: self.terminal,
            wm_class: opt_view(self.wm_class),
            installer: match self.installer {
                Some(iv) => Some(iv@),
                None => None,
            },
            public_key: opt_view(self.public_key),
            signature: opt_view(self.signature),
        }
    }
}

/// Parses the canonical metadata text, the whole of `s`: strict about the
/// canonical order of known members, tolerant of unknown members (to the
/// nesting depth `SKIP_DEPTH` inside them), checked for the required fields.
#[verifier::rlimit(100)]
pub fn parse_metadata(s: &Vec<u8>) -> (r: Result<LxeMetadata, LxeError>)
    ensures
        match r {
            Ok(m) => sp_meta(s@) == Some(m@),
            Err(e) => sp_meta(s@) is None && e == LxeError::MetadataParseError,
        },
{
    let n = s.len();
    if n < 1 || s[0] != 0x7b {
        return Err(LxeError::MetadataParseError);
    }
    let (key0, j0) = match parse_jstr(s, 1) {
        Ok(x) => x,
        Err(e) => {
            return Err(e);
        },
    };
    proof {
        reveal_strlit("format_version");
        assert(vstd::string::is_ascii("format_version"));
    }
    if !key_is(&key0, "format_version") {
        return Err(LxeError::MetadataParseError);
    }
    if !(j0 < n && s[j0] == 0x3a) {
        return Err(LxeError::MetadataParseError);
    }
    let (fv, e0) = match parse_ju64(s, j0 + 1) {
        Ok(x) => x,
        Err(e) => {
            return Err(e);
        },
    };
    let mut b = MetaFields {
        app_id: None,
        name: None,
        version: None,
        arch: None,
        install_size: None,
        exec_path: None,
        icon: None,
        categories: None,
        description: None,
        payload_checksum: None,
        min_runtime_version: None,
        license: None,
        homepage: None,
        exec_args: None,
        terminal: None,
        wm_class: None,
        installer: None,
        public_key: None,
        signature: None,
    };
    let mut p: usize = e0;
    let mut k: usize = 1;
    proof {
        assert(b.bview() == meta_b0());
    }
    loop
        invariant
            0 < e0 <= p <= n,
            n == s@.len(),
            1 <= k <= 20,
            sp_meta(s@) == (match sp_fields(s@, p as int, k as int, b.bview()) {
                Some(bz) => if bz.1 == s@.len() {
                    meta_finish(fv, bz.0)
                } else {
                    None::<MetaV>
                },
                None => None::<MetaV>,
            }),
        decreases n - p,
    {
        if p >= n {
            return Err(LxeError::MetadataParseError);
        }
        let c = s[p];
        if c == 0x7d {
            if p + 1 != n {
                return Err(LxeError::MetadataParseError);
            }
            if fv > 255 {
                return Err(LxeError::MetadataParseError);
            }
            let app_id = match b.app_id {
                Some(x) => x,
                None => {
                    return Err(LxeError::MetadataParseError);
                },
            };
            let name = match b.name {
                Some(x) => x,
                None => {
                    return Err(LxeError::MetadataParseError);
                },
            };
            let version = match b.version {
                Some(x) => x,
                None => {
                    return Err(LxeError::MetadataParseError);
                },
            };
            let arch = match b.arch {
                Some(x) => x,
                None => {
                    return Err(LxeError::MetadataParseError);
                },
            };
            let install_size = match b.install_size {
                Some(x) => x,
                None => {
                    return Err(LxeError::MetadataParseError);
                },
            };
            let exec_path = match b.exec_path {
                Some(x) => x,
                None => {
                    return Err(LxeError::MetadataParseError);
                },
            };
            let payload_checksum = match b.payload_checksum {
                Some(x) => x,
                None => {
                    return Err(LxeError::MetadataParseError);
                },
            };
            let categories: Vec<Vec<u8>> = match b.categories {
                Some(x) => x,
                None => {
                    let v: Vec<Vec<u8>> = Vec::new();
                    proof {
                        assert(v.deep_view() =~= Seq::<Seq<u8>>::empty());
                    }
                    v
                },
            };
            let terminal = match b.terminal {
                Some(x) => x,
                None => false,
            };
            let out = LxeMetadata {
                format_version: fv as u8,
                app_id,
                name,
                version,
                arch,
                install_size,
                exec_path,
                icon: b.icon,
                categories,
                description: b.description,
                payload_checksum,
                min_runtime_version: b.min_runtime_version,
                license: b.license,
                homepage: b.homepage,
                exec_args: b.exec_args,
                terminal,
                wm_class: b.wm_class,
                installer: b.installer,
                public_key: b.public_key,
                signature: b.signature,
            };
            return Ok(out);
        }
        if c != 0x2c {
            return Err(LxeError::MetadataParseError);
        }
        let (b2, k2, p2) = match meta_member(s, p, k, b) {
            Ok(t) => t,
            Err(e) => {
                return Err(e);
            },
        };
        b = b2;
        k = k2;
        p = p2;
    }
}

} // verus!

verus! {

/// The slot of a metadata member key, as `field_index`.
fn meta_key_index(key: &Vec<u8>) -> (r: i32)
    ensures
        r as int == field_index(key@),
{
    proof {
        reveal_strlit("format_version");
        reveal_strlit("app_id");
        reveal_strlit("name");
        reveal_strlit("version");
        reveal_strlit("arch");
        reveal_strlit("install_size");
        reveal_strlit("exec");
        reveal_strlit("icon");
        reveal_strlit("categories");
        reveal_strlit("description");
        reveal_strlit("payload_checksum");
        reveal_strlit("min_runtime_version");
        reveal_strlit("license");
        reveal_strlit("homepage");
        reveal_strlit("exec_args");
        reveal_strlit("terminal");
        reveal_strlit("wm_class");
        reveal_strlit("installer");
        reveal_strlit("public_key");
        reveal_strlit("signature");
        assert(vstd::string::is_ascii("format_version") && vstd::string::is_ascii("app_id") && vstd::string::is_ascii("name") && vstd::string::is_ascii("version") && vstd::string::is_ascii("arch") && vstd::string::is_ascii("install_size") && vstd::string::is_ascii("exec") && vstd::string::is_ascii("icon") && vstd::string::is_ascii("categories") && vstd::string::is_ascii("description") && vstd::string::is_ascii("payload_checksum") && vstd::string::is_ascii("min_runtime_version") && vstd::string::is_ascii("license") && vstd::string::is_ascii("homepage") && vstd::string::is_ascii("exec_args") && vstd::string::is_ascii("terminal") && vstd::string::is_ascii("wm_class") && vstd::string::is_ascii("installer") && vstd::string::is_ascii("public_key") && vstd::string::is_ascii("signature"));
    }
    let r: i32 = if key_is(key, "format_version") {
        0
    } else if key_is(key, "app_id") {
        1
    } else if key_is(key, "name") {
        2
    } else if key_is(key, "version") {
        3
    } else if key_is(key, "arch") {
        4
    } else if key_is(key, "install_size") {
        5
    } else if key_is(key, "exec") {
        6
    } else if key_is(key, "icon") {
        7
    } else if key_is(key, "categories") {
        8
    } else if key_is(key, "description") {
        9
    } else if key_is(key, "payload_checksum") {
        10
    } else if key_is(key, "min_runtime_version") {
        11
    } else if key_is(key, "license") {
        12
    } else if key_is(key, "homepage") {
        13
    } else if key_is(key, "exec_args") {
        14
    } else if key_is(key, "terminal") {
        15
    } else if key_is(key, "wm_class") {
        16
    } else if key_is(key, "installer") {
        17
    } else if key_is(key, "public_key") {
        18
    } else if key_is(key, "signature") {
        19
    } else {
        -1
    };
    r
}

} // verus!


verus! {

/// The slot of an installer member key, as `inst_field_index`.
fn inst_key_index(key: &Vec<u8>) -> (r: i32)
    ensures
        r as int == inst_field_index(key@),
{
    proof {
        reveal_strlit("show_launch");
        reveal_strlit("allow_custom_dir");
        reveal_strlit("welcome_title");
        reveal_strlit("welcome_text");
        reveal_strlit("finish_title");
        reveal_strlit("finish_text");
        reveal_strlit("accent_color");
        reveal_strlit("theme");
        reveal_strlit("license_text");
        reveal_strlit("banner");
        reveal_strlit("logo");
        assert(vstd::string::is_ascii("show_launch") && vstd::string::is_ascii("allow_custom_dir") && vstd::string::is_ascii("welcome_title") && vstd::string::is_ascii("welcome_text") && vstd::string::is_ascii("finish_title") && vstd::string::is_ascii("finish_text") && vstd::string::is_ascii("accent_color") && vstd::string::is_ascii("theme") && vstd::string::is_ascii("license_text") && vstd::string::is_ascii("banner") && vstd::string::is_ascii("logo"));
    }
    let r: i32 = if key_is(key, "show_launch") {
        0
    } else if key_is(key, "allow_custom_dir") {
        1
    } else if key_is(key, "welcome_title") {
        2
    } else if key_is(key, "welcome_text") {
        3
    } else if key_is(key, "finish_title") {
        4
    } else if key_is(key, "finish_text") {
        5
    } else if key_is(key, "accent_color") {
        6
    } else if key_is(key, "theme") {
        7
    } else if key_is(key, "license_text") {
        8
    } else if key_is(key, "banner") {
        9
    } else if key_is(key, "logo") {
        10
    } else {
        -1
    };
    r
}

/// Processes one `,"key":value` metadata member standing at `p`: hands back
/// the builder, the next slot floor, and the position after the value.
#[verifier::rlimit(100)]
fn meta_member(s: &Vec<u8>, p: usize, k: usize, b: MetaFields) -> (r: Result<
    (MetaFields, usize, usize),
    LxeError,
>)
    requires
        p < s@.len(),
        s@[p as int] == 0x2c,
        1 <= k <= 20,
    ensures
        match r {
            Ok(t) => sp_fields(s@, p as int, k as int, b.bview()) == sp_fields(
                s@,
                t.2 as int,
                t.1 as int,
                t.0.bview(),
            ) && p < t.2 <= s@.len() && 1 <= t.1 <= 20,
            Err(e) => sp_fields(s@, p as int, k as int, b.bview()) is None && e
                == LxeError::MetadataParseError,
        },
{
    let n = s.len();
    let (key, j) = match parse_jstr(s, p + 1) {
        Ok(x) => x,
        Err(e) => {
            return Err(e);
        },
    };
    if !(j < n && s[j] == 0x3a) {
        return Err(LxeError::MetadataParseError);
    }
    let ki: i32 = meta_key_index(&key);
    if ki < 0 {
        let e2 = match skip_value(s, j + 1, 8) {
            Ok(x) => x,
            Err(e) => {
                return Err(e);
            },
        };
        Ok((b, k, e2))
    } else if (ki as usize) < k {
        Err(LxeError::MetadataParseError)
    } else if ki == 5 {
        let (x, e2) = match parse_ju64(s, j + 1) {
            Ok(x) => x,
            Err(e) => {
                return Err(e);
            },
        };
        Ok((MetaFields { install_size: Some(x), ..b }, 6, e2))
    } else if ki == 8 {
        let (x, e2) = match parse_jarr(s, j + 1) {
            Ok(x) => x,
            Err(e) => {
                return Err(e);
            },
        };
        Ok((MetaFields { categories: Some(x), ..b }, 9, e2))
    } else if ki == 15 {
        let (x, e2) = match parse_jbool(s, j + 1) {
            Ok(x) => x,
            Err(e) => {
                return Err(e);
            },
        };
        Ok((MetaFields { terminal: Some(x), ..b }, 16, e2))
    } else if ki == 17 {
        let (x, e2) = match parse_installer(s, j + 1) {
            Ok(x) => x,
            Err(e) => {
                return Err(e);
            },
        };
        Ok((MetaFields { installer: Some(x), ..b }, 18, e2))
    } else {
        let (x, e2) = match parse_jstr(s, j + 1) {
            Ok(x) => x,
            Err(e) => {
                return Err(e);
            },
        };
        if ki == 1 {
                return Ok((MetaFields { app_id: Some(x), ..b }, 1 + 1, e2));
            } else if ki == 2 {
                return Ok((MetaFields { name: Some(x), ..b }, 2 + 1, e2));
            } else if ki == 3 {
                return Ok((MetaFields { version: Some(x), ..b }, 3 + 1, e2));
            } else if ki == 4 {
                return Ok((MetaFields { arch: Some(x), ..b }, 4 + 1, e2));
            } else if ki == 6 {
                return Ok((MetaFields { exec_path: Some(x), ..b }, 6 + 1, e2));
            } else if ki == 7 {
                return Ok((MetaFields { icon: Some(x), ..b }, 7 + 1, e2));
            } else if ki == 9 {
                return Ok((MetaFields { description: Some(x), ..b }, 9 + 1, e2));
            } else if ki == 10 {
                return Ok((MetaFields { payload_checksum: Some(x), ..b }, 10 + 1, e2));
            } else if ki == 11 {
                return Ok((MetaFields { min_runtime_version: Some(x), ..b }, 11 + 1, e2));
            } else if ki == 12 {
                return Ok((MetaFields { license: Some(x), ..b }, 12 + 1, e2));
            } else if ki == 13 {
                return Ok((MetaFields { homepage: Some(x), ..b }, 13 + 1, e2));
            } else if ki == 14 {
                return Ok((MetaFields { exec_args: Some(x), ..b }, 14 + 1, e2));
            } else if ki == 16 {
                return Ok((MetaFields { wm_class: Some(x), ..b }, 16 + 1, e2));
            } else if ki == 18 {
                return Ok((MetaFields { public_key: Some(x), ..b }, 18 + 1, e2));
            } else if ki == 19 {
                return Ok((MetaFields { signature: Some(x), ..b }, 19 + 1, e2));
            } else {
                return Err(LxeError::MetadataParseError);
            }
    }
}

} // verus!

verus! {

/// The metadata with every field outside the signable projection cleared.
pub open spec fn strip_unsigned(v: MetaV) -> MetaV {
    MetaV { wm_class: None, installer: None, public_key: None, signature: None, ..v }
}

proof fn lemma_sig_tail_is_meta_tail(k: int, v: MetaV)
    requires
        1 <= k <= 16,
    ensures
        ser_sig_tail(k, v) == ser_meta_tail(k, strip_unsigned(v)),
    decreases 16 - k,
{
    let w = strip_unsigned(v);
    if k == 16 {
        assert(meta_seg(16, w) =~= Seq::<u8>::empty());
        assert(meta_seg(17, w) =~= Seq::<u8>::empty());
        assert(meta_seg(18, w) =~= Seq::<u8>::empty());
        assert(meta_seg(19, w) =~= Seq::<u8>::empty());
        assert(ser_meta_tail(20, w) == seq![0x7du8]);
        assert(ser_meta_tail(19, w) =~= seq![0x7du8]);
        assert(ser_meta_tail(18, w) =~= seq![0x7du8]);
        assert(ser_meta_tail(17, w) =~= seq![0x7du8]);
        assert(ser_meta_tail(16, w) =~= seq![0x7du8]);
    } else {
        assert(meta_seg(k, v) == meta_seg(k, w));
        lemma_sig_tail_is_meta_tail(k + 1, v);
    }
}

/// The signable bytes are exactly the canonical serialization of the
/// signable projection.
pub proof fn lemma_signable_is_projection(v: MetaV)
    ensures
        ser_signable(v) == ser_meta(strip_unsigned(v)),
{
    lemma_sig_tail_is_meta_tail(1, v);
}

/// Editing `wm_class`, the installer block, `public_key` or `signature`
/// never changes the signable bytes: by construction those fields lie
/// outside the projection.
pub proof fn lemma_signable_ignores_unsigned_fields(v1: MetaV, v2: MetaV)
    requires
        strip_unsigned(v1) == strip_unsigned(v2),
    ensures
        ser_signable(v1) == ser_signable(v2),
{
    lemma_signable_is_projection(v1);
    lemma_signable_is_projection(v2);
}

/// The signable bytes pin every signable field: two metadata objects with
/// the same signable bytes agree on the whole projection, so changing any
/// signed field changes the bytes under the signature.
pub proof fn lemma_signable_injective(v1: MetaV, v2: MetaV)
    requires
        ser_signable(v1) == ser_signable(v2),
    ensures
        strip_unsigned(v1) == strip_unsigned(v2),
{
    lemma_signable_is_projection(v1);
    lemma_signable_is_projection(v2);
    lemma_meta_round_trip(strip_unsigned(v1));
    lemma_meta_round_trip(strip_unsigned(v2));
}

} // verus!

verus! {

/// Each category followed by a semicolon, in order.
pub open spec fn cats_string(v: Seq<Seq<u8>>) -> Seq<u8>
    decreases v.len(),
{
    if v.len() == 0 {
        Seq::empty()
    } else {
        v[0] + seq![0x3bu8] + cats_string(v.drop_first())
    }
}

proof fn lemma_cats_push(v: Seq<Seq<u8>>, x: Seq<u8>)
    ensures
        cats_string(v.push(x)) == cats_string(v) + (x + seq![0x3bu8]),
    decreases v.len(),
{
    if v.len() == 0 {
        assert(v.push(x)[0] == x);
        assert(v.push(x).drop_first() =~= v);
        assert(cats_string(v.push(x)) =~= cats_string(v) + (x + seq![0x3bu8]));
    } else {
        assert(v.push(x)[0] == v[0]);
        assert(v.push(x).drop_first() =~= v.drop_first().push(x));
        lemma_cats_push(v.drop_first(), x);
        assert(cats_string(v.push(x)) =~= v[0] + seq![0x3bu8] + cats_string(v.drop_first().push(x)));
        assert(cats_string(v.push(x)) =~= cats_string(v) + (x + seq![0x3bu8]));
    }
}

impl LxeMetadata {
    /// The `.desktop` file name of this application.
    pub fn desktop_filename(&self) -> (r: Vec<u8>)
        ensures
            r@ == self@.app_id + ascii_seq(".desktop"@),
    {
        let mut out: Vec<u8> = Vec::new();
        out.extend_from_slice(self.app_id.as_slice());
        proof {
            reveal_strlit(".desktop");
            assert(vstd::string::is_ascii(".desktop"));
        }
        emit_lit(&mut out, ".desktop");
        proof {
            assert(out@ =~= self@.app_id + ascii_seq(".desktop"@));
        }
        out
    }

    /// The desktop-taxonomy field: the categories joined by semicolons with
    /// a trailing semicolon, empty when there are none.
    pub fn categories_string(&self) -> (r: Vec<u8>)
        ensures
            r@ == cats_string(self@.categories),
    {
        let mut out: Vec<u8> = Vec::new();
        let mut i: usize = 0;
        let n = self.categories.len();
        while i < n
            invariant
                i <= n,
                n == self.categories@.len(),
                out@ == cats_string(self.categories.deep_view().subrange(0, i as int)),
            decreases n - i,
        {
            out.extend_from_slice(self.categories[i].as_slice());
            out.push(0x3b);
            proof {
                let dv = self.categories.deep_view();
                assert(dv[i as int] == self.categories@[i as int].deep_view());
                assert(self.categories@[i as int].deep_view() =~= self.categories@[i as int]@);
                assert(dv.subrange(0, i as int + 1) =~= dv.subrange(0, i as int).push(
                    dv[i as int],
                ));
                lemma_cats_push(dv.subrange(0, i as int), dv[i as int]);
                assert(out@ =~= cats_string(dv.subrange(0, i as int + 1)));
            }
            i = i + 1;
        }
        proof {
            assert(self.categories.deep_view().subrange(
                0,
                self.categories.deep_view().len() as int,
            ) =~= self.categories.deep_view());
        }
        out
    }

    /// Whether both signature fields are present.
    pub fn is_signed(&self) -> (r: bool)
        ensures
            r == (self@.public_key is Some && self@.signature is Some),
    {
        self.public_key.is_some() && self.signature.is_some()
    }
}

} // verus!
