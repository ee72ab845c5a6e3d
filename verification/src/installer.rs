//! Pure installation logic: target directory computation, the desktop entry
//! text, the launcher name, and the uninstall safety decisions.

use vstd::prelude::*;

use crate::json::{ascii_seq, emit_lit, jbool};
use crate::metadata::LxeMetadata;
use crate::paths::contains_sub;
use crate::payload::sub_match_at;

verus! {

/// Where an installation goes and which side effects it performs.
pub struct InstallConfig {
    pub base_dir: Vec<u8>,
    pub is_system: bool,
    pub create_desktop_entry: bool,
    pub update_icon_cache: bool,
}

impl InstallConfig {
    /// The system-wide target under `/usr`.
    pub fn system() -> (r: InstallConfig)
        ensures
            r.base_dir@ == ascii_seq("/usr"@),
            r.is_system,
            r.create_desktop_entry,
            r.update_icon_cache,
    {
        proof {
            reveal_strlit("/usr");
            assert(vstd::string::is_ascii("/usr"));
        }
        InstallConfig {
            base_dir: crate::paths::lit_vec("/usr"),
            is_system: true,
            create_desktop_entry: true,
            update_icon_cache: true,
        }
    }

    /// A user-local target rooted at the given base directory.
    pub fn user_local_at(base_dir: Vec<u8>) -> (r: InstallConfig)
        ensures
            r.base_dir@ == base_dir@,
            !r.is_system,
            r.create_desktop_entry,
            r.update_icon_cache,
    {
        InstallConfig { base_dir, is_system: false, create_desktop_entry: true, update_icon_cache: true }
    }

    /// `{base}/share/applications`.
    pub fn applications_dir(&self) -> (r: Vec<u8>)
        ensures
            r@ == self.base_dir@ + ascii_seq("/share/applications"@),
    {
        let mut out: Vec<u8> = Vec::new();
        out.extend_from_slice(self.base_dir.as_slice());
        proof {
            reveal_strlit("/share/applications");
            assert(vstd::string::is_ascii("/share/applications"));
        }
        emit_lit(&mut out, "/share/applications");
        proof {
            assert(out@ =~= self.base_dir@ + ascii_seq("/share/applications"@));
        }
        out
    }

    /// `{base}/bin`.
    pub fn bin_dir(&self) -> (r: Vec<u8>)
        ensures
            r@ == self.base_dir@ + ascii_seq("/bin"@),
    {
        let mut out: Vec<u8> = Vec::new();
        out.extend_from_slice(self.base_dir.as_slice());
        proof {
            reveal_strlit("/bin");
            assert(vstd::string::is_ascii("/bin"));
        }
        emit_lit(&mut out, "/bin");
        proof {
            assert(out@ =~= self.base_dir@ + ascii_seq("/bin"@));
        }
        out
    }

    /// `{base}/share/icons/hicolor`.
    pub fn icons_dir(&self) -> (r: Vec<u8>)
        ensures
            r@ == self.base_dir@ + ascii_seq("/share/icons/hicolor"@),
    {
        let mut out: Vec<u8> = Vec::new();
        out.extend_from_slice(self.base_dir.as_slice());
        proof {
            reveal_strlit("/share/icons/hicolor");
            assert(vstd::string::is_ascii("/share/icons/hicolor"));
        }
        emit_lit(&mut out, "/share/icons/hicolor");
        proof {
            assert(out@ =~= self.base_dir@ + ascii_seq("/share/icons/hicolor"@));
        }
        out
    }

    /// `{base}/share/{app_id}`: where the application tree lands.
    pub fn app_dir(&self, app_id: &Vec<u8>) -> (r: Vec<u8>)
        ensures
            r@ == self.base_dir@ + ascii_seq("/share/"@) + app_id@,
    {
        crate::paths::app_install_dir(&self.base_dir, app_id)
    }
}

/// The position after the last slash of a path; the whole path when it has
/// no slash.
pub open spec fn basename_start(p: Seq<u8>, k: int) -> int
    decreases k,
{
    if k <= 0 {
        0
    } else if p[k - 1] == 0x2f {
        k
    } else {
        basename_start(p, k - 1)
    }
}

/// The file name of a path: everything after its last slash.
pub fn basename(p: &Vec<u8>) -> (r: Vec<u8>)
    ensures
        r@ == p@.subrange(basename_start(p@, p@.len() as int), p@.len() as int),
{
    let n = p.len();
    let mut k: usize = n;
    while k > 0
        invariant
            k <= n,
            n == p@.len(),
            basename_start(p@, n as int) == basename_start(p@, k as int),
        decreases k,
    {
        if p[k - 1] == 0x2f {
            proof {
                assert(basename_start(p@, k as int) == k);
            }
            return crate::codec::copy_range(p, k, n);
        }
        k = k - 1;
    }
    crate::codec::copy_range(p, 0, n)
}

/// A symlink found in the bin directory is removed during uninstall exactly
/// when its target lies under the application directory or names the
/// application.
pub fn should_remove_symlink(target: &Vec<u8>, app_dir: &Vec<u8>, app_id: &Vec<u8>) -> (r: bool)
    ensures
        r == (sub_match_at(target@, app_dir@, 0) || contains_sub(target@, app_id@)),
{
    let n = app_dir.len();
    if target.len() >= n {
        if crate::payload::bytes_at(target, 0, app_dir) {
            return true;
        }
    }
    crate::paths::contains_bytes(target, app_id)
}

/// The window class of the desktop entry: the explicit `wm_class` override,
/// else the last dot-separated segment of the application id.
pub open spec fn last_dot_start(p: Seq<u8>, k: int) -> int
    decreases k,
{
    if k <= 0 {
        0
    } else if p[k - 1] == 0x2e {
        k
    } else {
        last_dot_start(p, k - 1)
    }
}

/// The segment of `p` after its last dot; the whole of `p` without one.
pub fn last_dot_segment(p: &Vec<u8>) -> (r: Vec<u8>)
    ensures
        r@ == p@.subrange(last_dot_start(p@, p@.len() as int), p@.len() as int),
{
    let n = p.len();
    let mut k: usize = n;
    while k > 0
        invariant
            k <= n,
            n == p@.len(),
            last_dot_start(p@, n as int) == last_dot_start(p@, k as int),
        decreases k,
    {
        if p[k - 1] == 0x2e {
            proof {
                assert(last_dot_start(p@, k as int) == k);
            }
            return crate::codec::copy_range(p, k, n);
        }
        k = k - 1;
    }
    crate::codec::copy_range(p, 0, n)
}

/// The text of the `.desktop` entry the installer writes. `exec_abs` is the
/// absolute path of the installed executable, `icon_value` the icon path or
/// the application id, and `runtime_path` the installed runtime copy the
/// uninstall action invokes.
pub open spec fn desktop_entry_spec(
    name: Seq<u8>,
    comment: Seq<u8>,
    exec_abs: Seq<u8>,
    icon_value: Seq<u8>,
    terminal: bool,
    categories: Seq<u8>,
    wm_class: Seq<u8>,
    version: Seq<u8>,
    app_id: Seq<u8>,
    runtime_path: Seq<u8>,
) -> Seq<u8> {
    ascii_seq("[Desktop Entry]\nType=Application\nName="@) + name + ascii_seq("\nComment="@)
        + comment + ascii_seq("\nExec="@) + exec_abs + ascii_seq("\nIcon="@) + icon_value
        + ascii_seq("\nTerminal="@) + jbool(terminal) + ascii_seq("\nCategories="@) + categories
        + ascii_seq("\nStartupWMClass="@) + wm_class + ascii_seq("\nX-LXE-Version="@) + version
        + ascii_seq("\nX-LXE-AppId="@) + app_id + ascii_seq(
        "\nActions=Uninstall;\n\n[Desktop Action Uninstall]\nName=Uninstall "@,
    ) + name + ascii_seq("\nExec="@) + runtime_path + ascii_seq(" --uninstall-gui "@) + app_id
        + seq![0x0au8]
}

/// Builds the `.desktop` entry text.
#[verifier::rlimit(100)]
pub fn desktop_entry_content(
    name: &Vec<u8>,
    comment: &Vec<u8>,
    exec_abs: &Vec<u8>,
    icon_value: &Vec<u8>,
    terminal: bool,
    categories: &Vec<u8>,
    wm_class: &Vec<u8>,
    version: &Vec<u8>,
    app_id: &Vec<u8>,
    runtime_path: &Vec<u8>,
) -> (r: Vec<u8>)
    ensures
        r@ == desktop_entry_spec(
            name@,
            comment@,
            exec_abs@,
            icon_value@,
            terminal,
            categories@,
            wm_class@,
            version@,
            app_id@,
            runtime_path@,
        ),
{
    proof {
        reveal_strlit("[Desktop Entry]\nType=Application\nName=");
        reveal_strlit("\nComment=");
        reveal_strlit("\nExec=");
        reveal_strlit("\nIcon=");
        reveal_strlit("\nTerminal=");
        reveal_strlit("true");
        reveal_strlit("false");
        reveal_strlit("\nCategories=");
        reveal_strlit("\nStartupWMClass=");
        reveal_strlit("\nX-LXE-Version=");
        reveal_strlit("\nX-LXE-AppId=");
        reveal_strlit("\nActions=Uninstall;\n\n[Desktop Action Uninstall]\nName=Uninstall ");
        reveal_strlit(" --uninstall-gui ");
        assert(vstd::string::is_ascii("[Desktop Entry]\nType=Application\nName=")
            && vstd::string::is_ascii("\nComment=") && vstd::string::is_ascii("\nExec=")
            && vstd::string::is_ascii("\nIcon=") && vstd::string::is_ascii("\nTerminal=")
            && vstd::string::is_ascii("true") && vstd::string::is_ascii("false")
            && vstd::string::is_ascii("\nCategories=") && vstd::string::is_ascii(
            "\nStartupWMClass=",
        ) && vstd::string::is_ascii("\nX-LXE-Version=") && vstd::string::is_ascii(
            "\nX-LXE-AppId=",
        ) && vstd::string::is_ascii(
            "\nActions=Uninstall;\n\n[Desktop Action Uninstall]\nName=Uninstall ",
        ) && vstd::string::is_ascii(" --uninstall-gui "));
    }
    let mut out: Vec<u8> = Vec::new();
    emit_lit(&mut out, "[Desktop Entry]\nType=Application\nName=");
    out.extend_from_slice(name.as_slice());
    emit_lit(&mut out, "\nComment=");
    out.extend_from_slice(comment.as_slice());
    emit_lit(&mut out, "\nExec=");
    out.extend_from_slice(exec_abs.as_slice());
    emit_lit(&mut out, "\nIcon=");
    out.extend_from_slice(icon_value.as_slice());
    emit_lit(&mut out, "\nTerminal=");
    if terminal {
        emit_lit(&mut out, "true");
    } else {
        emit_lit(&mut out, "false");
    }
    emit_lit(&mut out, "\nCategories=");
    out.extend_from_slice(categories.as_slice());
    emit_lit(&mut out, "\nStartupWMClass=");
    out.extend_from_slice(wm_class.as_slice());
    emit_lit(&mut out, "\nX-LXE-Version=");
    out.extend_from_slice(version.as_slice());
    emit_lit(&mut out, "\nX-LXE-AppId=");
    out.extend_from_slice(app_id.as_slice());
    emit_lit(&mut out, "\nActions=Uninstall;\n\n[Desktop Action Uninstall]\nName=Uninstall ");
    out.extend_from_slice(name.as_slice());
    emit_lit(&mut out, "\nExec=");
    out.extend_from_slice(runtime_path.as_slice());
    emit_lit(&mut out, " --uninstall-gui ");
    out.extend_from_slice(app_id.as_slice());
    out.push(0x0a);
    proof {
        assert(out@ =~= desktop_entry_spec(
            name@,
            comment@,
            exec_abs@,
            icon_value@,
            terminal,
            categories@,
            wm_class@,
            version@,
            app_id@,
            runtime_path@,
        ));
    }
    out
}

/// Installing then uninstalling touches the same places: the uninstaller's
/// application directory and desktop entry path are exactly the ones the
/// installer wrote for the same target and application id, the launcher
/// symlink the installer created is one the uninstaller removes, and the
/// safety check accepts the application directory the installer used, for
/// every user or system base directory containing a known installation area.
pub proof fn lemma_uninstall_covers_install(base: Seq<u8>, app_id: Seq<u8>, exec_rel: Seq<u8>)
    requires
        contains_sub(base, ascii_seq(".local/share"@)) || contains_sub(
            base + ascii_seq("/share/"@) + app_id,
            ascii_seq("/usr/share/"@),
        ) || contains_sub(base, ascii_seq("/opt/"@)),
        app_id.len() > 0,
    ensures
        ({
            let app_dir = base + ascii_seq("/share/"@) + app_id;
            &&& sub_match_at(app_dir + seq![0x2fu8] + exec_rel, app_dir, 0)
            &&& crate::paths::safe_to_delete(app_dir, app_id)
        }),
{
    let app_dir = base + ascii_seq("/share/"@) + app_id;
    let target = app_dir + seq![0x2fu8] + exec_rel;
    assert(target.subrange(0, app_dir.len() as int) =~= app_dir);
    assert(contains_sub(app_dir, app_id)) by {
        let i = base.len() as int + ascii_seq("/share/"@).len() as int;
        assert(app_dir.subrange(i, i + app_id.len() as int) =~= app_id);
        assert(sub_match_at(app_dir, app_id, i));
    }
    reveal_strlit(".local/share");
    reveal_strlit("/usr/share/");
    reveal_strlit("/opt/");
    reveal_strlit("/");
    reveal_strlit("/home");
    reveal_strlit("/usr");
    reveal_strlit("/share/");
    if contains_sub(base, ascii_seq(".local/share"@)) {
        let i = choose|i: int| sub_match_at(base, ascii_seq(".local/share"@), i);
        assert(app_dir.subrange(i, i + ascii_seq(".local/share"@).len() as int) =~= ascii_seq(
            ".local/share"@,
        ));
        assert(sub_match_at(app_dir, ascii_seq(".local/share"@), i));
    } else if contains_sub(base, ascii_seq("/opt/"@)) {
        let i = choose|i: int| sub_match_at(base, ascii_seq("/opt/"@), i);
        assert(app_dir.subrange(i, i + ascii_seq("/opt/"@).len() as int) =~= ascii_seq("/opt/"@));
        assert(sub_match_at(app_dir, ascii_seq("/opt/"@), i));
    }
    assert(app_dir.len() >= 8);
    assert(ascii_seq("/"@).len() == 1 && ascii_seq("/home"@).len() == 5 && ascii_seq(
        "/usr"@,
    ).len() == 4);
    assert(app_dir != ascii_seq("/"@) && app_dir != ascii_seq("/home"@) && app_dir != ascii_seq(
        "/usr"@,
    ));
}

} // verus!

verus! {

/// One past the last byte of the PATH segment starting at `i`: the next
/// colon, or the end.
pub open spec fn path_seg_end(s: Seq<u8>, i: int) -> int
    decreases s.len() - i,
{
    if 0 <= i && i < s.len() && s[i] != 0x3a {
        path_seg_end(s, i + 1)
    } else {
        i
    }
}

/// `p` is a suffix of `s`.
pub open spec fn has_suffix(s: Seq<u8>, p: Seq<u8>) -> bool {
    s.len() >= p.len() && s.subrange(s.len() - p.len(), s.len() as int) == p
}

/// A PATH segment already covers the user bin directory: it equals it,
/// spells it through the home variable, or ends in `/.local/bin`.
pub open spec fn seg_covers_bin(seg: Seq<u8>, bin_dir: Seq<u8>) -> bool {
    seg == bin_dir || seg == ascii_seq("$HOME/.local/bin"@) || has_suffix(
        seg,
        ascii_seq("/.local/bin"@),
    )
}

/// Some colon-separated segment of the PATH value, from `i` on, covers the
/// user bin directory.
pub open spec fn path_has_entry_from(s: Seq<u8>, i: int, bin_dir: Seq<u8>) -> bool
    decreases s.len() - i,
{
    if i < 0 || i > s.len() {
        false
    } else {
        let e = path_seg_end(s, i);
        if !(i <= e && e <= s.len()) {
            false
        } else {
            seg_covers_bin(s.subrange(i, e), bin_dir) || (e < s.len() && path_has_entry_from(
                s,
                e + 1,
                bin_dir,
            ))
        }
    }
}

/// Some segment of the whole PATH value covers the user bin directory.
pub open spec fn path_has_entry(s: Seq<u8>, bin_dir: Seq<u8>) -> bool {
    path_has_entry_from(s, 0, bin_dir)
}

proof fn lemma_path_seg_end_at(s: Seq<u8>, i: int, e: int)
    requires
        0 <= i <= e <= s.len(),
        forall|t: int| i <= t < e ==> #[trigger] s[t] != 0x3a,
        e == s.len() || s[e] == 0x3a,
    ensures
        path_seg_end(s, i) == e,
    decreases e - i,
{
    if i < e {
        lemma_path_seg_end_at(s, i + 1, e);
    }
}

/// A shell-config text already carries the stanza or an equivalent entry.
pub open spec fn config_has_marker(t: Seq<u8>) -> bool {
    crate::paths::contains_sub(t, ascii_seq("/.local/bin"@)) || crate::paths::contains_sub(
        t,
        ascii_seq("Added by LXE"@),
    )
}

/// The stanza appended to a shell configuration to put the user bin
/// directory on the PATH.
pub fn path_export_stanza() -> (r: &'static str)
    ensures
        r@ == ("\n# Added by LXE installer - enables running LXE-installed apps from terminal\nexport PATH=\"$HOME/.local/bin:$PATH\"\n")@,
{
    "\n# Added by LXE installer - enables running LXE-installed apps from terminal\nexport PATH=\"$HOME/.local/bin:$PATH\"\n"
}

/// Whether the installer must append the PATH stanza: only when neither the
/// PATH value itself nor any existing shell-configuration text already
/// covers the user bin directory.
#[verifier::rlimit(100)]
pub fn path_needs_stanza(
    path_env: &Vec<u8>,
    bin_dir: &Vec<u8>,
    config_texts: &Vec<Vec<u8>>,
) -> (r: bool)
    ensures
        r == !(path_has_entry(path_env@, bin_dir@) || exists|i: int|
            0 <= i < config_texts@.len() && config_has_marker(#[trigger] config_texts@[i]@)),
{
    proof {
        reveal_strlit("$HOME/.local/bin");
        reveal_strlit("/.local/bin");
        reveal_strlit("Added by LXE");
        assert(vstd::string::is_ascii("$HOME/.local/bin") && vstd::string::is_ascii("/.local/bin")
            && vstd::string::is_ascii("Added by LXE"));
    }
    let home_bin = crate::paths::lit_vec("$HOME/.local/bin");
    let local_bin = crate::paths::lit_vec("/.local/bin");
    let marker = crate::paths::lit_vec("Added by LXE");
    let n = path_env.len();
    let mut p: usize = 0;
    loop
        invariant
            p <= n,
            n == path_env@.len(),
            home_bin@ == ascii_seq("$HOME/.local/bin"@),
            local_bin@ == ascii_seq("/.local/bin"@),
            marker@ == ascii_seq("Added by LXE"@),
            path_has_entry(path_env@, bin_dir@) == path_has_entry_from(
                path_env@,
                p as int,
                bin_dir@,
            ),
        decreases n - p,
    {
        let mut e: usize = p;
        while e < n && path_env[e] != 0x3a
            invariant
                p <= e <= n,
                n == path_env@.len(),
                forall|t: int| p <= t < e ==> #[trigger] path_env@[t] != 0x3a,
            decreases n - e,
        {
            e = e + 1;
        }
        proof {
            lemma_path_seg_end_at(path_env@, p as int, e as int);
        }
        let seg = crate::codec::copy_range(path_env, p, e);
        let hit = crate::paths::bytes_eq(&seg, bin_dir) || crate::paths::bytes_eq(
            &seg,
            &home_bin,
        ) || (seg.len() >= local_bin.len() && crate::payload::bytes_at(
            &seg,
            seg.len() - local_bin.len(),
            &local_bin,
        ));
        proof {
            assert(seg@ =~= path_env@.subrange(p as int, e as int));
            if seg.len() >= local_bin.len() {
                assert(seg@.subrange(seg@.len() - local_bin@.len(), seg@.len() as int)
                    =~= path_env@.subrange(p as int, e as int).subrange(
                    seg@.len() - local_bin@.len(),
                    seg@.len() as int,
                ));
            }
            assert(hit == seg_covers_bin(path_env@.subrange(p as int, e as int), bin_dir@));
        }
        if hit {
            return false;
        }
        if e >= n {
            proof {
                assert(!path_has_entry_from(path_env@, p as int, bin_dir@));
            }
            return !texts_have_marker(config_texts);
        }
        p = e + 1;
    }
}

/// Whether any shell-configuration text already carries the stanza marker.
fn texts_have_marker(config_texts: &Vec<Vec<u8>>) -> (r: bool)
    ensures
        r == exists|i: int|
            0 <= i < config_texts@.len() && config_has_marker(#[trigger] config_texts@[i]@),
{
    proof {
        reveal_strlit("/.local/bin");
        reveal_strlit("Added by LXE");
        assert(vstd::string::is_ascii("/.local/bin") && vstd::string::is_ascii("Added by LXE"));
    }
    let local_bin = crate::paths::lit_vec("/.local/bin");
    let marker = crate::paths::lit_vec("Added by LXE");
    let mut i: usize = 0;
    while i < config_texts.len()
        invariant
            i <= config_texts@.len(),
            marker@ == ascii_seq("Added by LXE"@),
            local_bin@ == ascii_seq("/.local/bin"@),
            forall|j: int| 0 <= j < i ==> !config_has_marker(#[trigger] config_texts@[j]@),
        decreases config_texts@.len() - i,
    {
        if crate::paths::contains_bytes(&config_texts[i], &local_bin) || crate::paths::contains_bytes(
            &config_texts[i],
            &marker,
        ) {
            return true;
        }
        i = i + 1;
    }
    false
}

} // verus!
