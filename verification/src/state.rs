//! Installation-state detection: version comparison, desktop-entry reading
//! and the wizard mode an existing installation calls for.

use vstd::prelude::*;

use crate::json::{ascii_seq, is_digit};
use crate::codec::copy_range;

verus! {

/// The state an existing installation of the same application is in.
pub enum InstallState {
    Fresh,
    Installed { install_path: Vec<u8>, version: Vec<u8>, is_system: bool },
    Upgradeable {
        install_path: Vec<u8>,
        old_version: Vec<u8>,
        new_version: Vec<u8>,
        is_system: bool,
    },
    Downgrade { install_path: Vec<u8>, installed_version: Vec<u8>, package_version: Vec<u8> },
    Corrupted { install_path: Vec<u8>, is_system: bool },
}

/// The wizard mode an installation state calls for.
pub enum WizardMode {
    Install,
    Maintenance {
        current_version: Vec<u8>,
        install_path: Vec<u8>,
        can_upgrade: bool,
        can_repair: bool,
        is_system: bool,
    },
}

/// The wizard mode that fits an installation state: fresh states install;
/// the rest maintain, with upgrade offered to older installs and repair to
/// corrupted ones (whose version reads `unknown`).
pub open spec fn wizard_mode_fits(s: InstallState, r: WizardMode) -> bool {
    match s {
        InstallState::Fresh => r is Install,
        InstallState::Installed { install_path, version, is_system } => match r {
            WizardMode::Maintenance {
                current_version,
                install_path: ip,
                can_upgrade,
                can_repair,
                is_system: sys,
            } => current_version@ == version@ && ip@ == install_path@ && !can_upgrade
                && !can_repair && sys == is_system,
            _ => false,
        },
        InstallState::Upgradeable { install_path, old_version, new_version, is_system } => match r {
            WizardMode::Maintenance {
                current_version,
                install_path: ip,
                can_upgrade,
                can_repair,
                is_system: sys,
            } => current_version@ == old_version@ && ip@ == install_path@ && can_upgrade
                && !can_repair && sys == is_system,
            _ => false,
        },
        InstallState::Downgrade { install_path, installed_version, package_version } => match r {
            WizardMode::Maintenance {
                current_version,
                install_path: ip,
                can_upgrade,
                can_repair,
                is_system: sys,
            } => current_version@ == installed_version@ && ip@ == install_path@ && !can_upgrade
                && !can_repair && !sys,
            _ => false,
        },
        InstallState::Corrupted { install_path, is_system } => match r {
            WizardMode::Maintenance {
                current_version,
                install_path: ip,
                can_upgrade,
                can_repair,
                is_system: sys,
            } => current_version@ == ascii_seq("unknown"@) && ip@ == install_path@ && !can_upgrade
                && can_repair && sys == is_system,
            _ => false,
        },
    }
}

impl InstallState {
    /// Maps the state onto the wizard mode it calls for.
    pub fn to_wizard_mode(&self, new_version: &Vec<u8>) -> (r: WizardMode)
        ensures
            wizard_mode_fits(*self, r),
    {
        match self {
            InstallState::Fresh => WizardMode::Install,
            InstallState::Installed { install_path, version, is_system } => {
                let cv = copy_range(version, 0, version.len());
                let ip = copy_range(install_path, 0, install_path.len());
                proof {
                    assert(cv@ =~= version@);
                    assert(ip@ =~= install_path@);
                }
                let r = WizardMode::Maintenance {
                    current_version: cv,
                    install_path: ip,
                    can_upgrade: false,
                    can_repair: false,
                    is_system: *is_system,
                };
                proof {
                    assert(wizard_mode_fits(*self, r));
                }
                r
            },
            InstallState::Upgradeable { install_path, old_version, new_version: _, is_system } => {
                let cv = copy_range(old_version, 0, old_version.len());
                let ip = copy_range(install_path, 0, install_path.len());
                proof {
                    assert(cv@ =~= old_version@);
                    assert(ip@ =~= install_path@);
                }
                let r = WizardMode::Maintenance {
                    current_version: cv,
                    install_path: ip,
                    can_upgrade: true,
                    can_repair: false,
                    is_system: *is_system,
                };
                proof {
                    assert(wizard_mode_fits(*self, r));
                }
                r
            },
            InstallState::Downgrade { install_path, installed_version, package_version: _ } => {
                let cv = copy_range(installed_version, 0, installed_version.len());
                let ip = copy_range(install_path, 0, install_path.len());
                proof {
                    assert(cv@ =~= installed_version@);
                    assert(ip@ =~= install_path@);
                }
                let r = WizardMode::Maintenance {
                    current_version: cv,
                    install_path: ip,
                    can_upgrade: false,
                    can_repair: false,
                    is_system: false,
                };
                proof {
                    assert(wizard_mode_fits(*self, r));
                }
                r
            },
            InstallState::Corrupted { install_path, is_system } => {
                proof {
                    reveal_strlit("unknown");
                    assert(vstd::string::is_ascii("unknown"));
                }
                let ip = copy_range(install_path, 0, install_path.len());
                proof {
                    assert(ip@ =~= install_path@);
                }
                let cv = crate::paths::lit_vec("unknown");
                proof {
                    assert(cv@ == ascii_seq("unknown"@));
                }
                let r = WizardMode::Maintenance {
                    current_version: cv,
                    install_path: ip,
                    can_upgrade: false,
                    can_repair: true,
                    is_system: *is_system,
                };
                proof {
                    assert(wizard_mode_fits(*self, r));
                }
                r
            },
        }
    }
}

/// One past the last byte of the version component starting at `i`: the next
/// dot, or the end.
pub open spec fn comp_end(s: Seq<u8>, i: int) -> int
    decreases s.len() - i,
{
    if 0 <= i && i < s.len() && s[i] != 0x2e {
        comp_end(s, i + 1)
    } else {
        i
    }
}

/// The numeric components of a dotted version string, in order; components
/// that are empty, hold a non-digit, or overflow a u32 are dropped.
pub open spec fn version_parts(s: Seq<u8>) -> Seq<int>
    decreases s.len(),
{
    if s.len() == 0 {
        Seq::empty()
    } else {
        let e = comp_end(s, 0);
        let chunk = s.subrange(0, e);
        let rest = if !(0 <= e && e < s.len()) {
            Seq::empty()
        } else {
            version_parts(s.subrange(e + 1, s.len() as int))
        };
        if chunk.len() >= 1 && (forall|t: int| 0 <= t < chunk.len() ==> is_digit(#[trigger] chunk[t]))
            && crate::json::dval(chunk, 0) <= u32::MAX {
            seq![crate::json::dval(chunk, 0)] + rest
        } else {
            rest
        }
    }
}

/// The integer values of a vector of parts.
pub open spec fn ints_of(v: Seq<u64>) -> Seq<int> {
    v.map_values(|x: u64| x as int)
}

proof fn lemma_ints_index(v: Seq<u64>, i: int)
    requires
        0 <= i < v.len(),
    ensures
        ints_of(v)[i] == v[i] as int,
        ints_of(v).len() == v.len(),
{
}

proof fn lemma_ints_push(v: Seq<u64>, x: u64)
    ensures
        ints_of(v.push(x)) =~= ints_of(v).push(x as int),
{
}

/// Lexicographic order on part lists, shorter lists first on a tie.
pub open spec fn cmp_parts(a: Seq<int>, b: Seq<int>) -> int
    decreases a.len(),
{
    if a.len() == 0 && b.len() == 0 {
        0
    } else if a.len() == 0 {
        -1
    } else if b.len() == 0 {
        1
    } else if a[0] < b[0] {
        -1
    } else if a[0] > b[0] {
        1
    } else {
        cmp_parts(a.drop_first(), b.drop_first())
    }
}

/// Extracts the numeric components of a dotted version string.
#[verifier::rlimit(100)]
pub fn parse_version_parts(s: &Vec<u8>) -> (r: Vec<u64>)
    ensures
        ints_of(r@) == version_parts(s@),
{
    let mut out: Vec<u64> = Vec::new();
    let mut rest: Vec<u8> = s.clone();
    proof {
        assert(ints_of(out@) + version_parts(rest@) =~= version_parts(s@));
    }
    loop
        invariant
            ints_of(out@) + version_parts(rest@) == version_parts(s@),
        decreases rest@.len(),
    {
        let n = rest.len();
        if n == 0 {
            proof {
                assert(version_parts(rest@) =~= Seq::<int>::empty());
                assert(ints_of(out@) =~= version_parts(s@));
            }
            return out;
        }
        let mut e: usize = 0;
        while e < n && rest[e] != 0x2e
            invariant
                e <= n,
                n == rest@.len(),
                forall|t: int| 0 <= t < e ==> rest@[t] != 0x2e,
                comp_end(rest@, 0) == comp_end(rest@, e as int),
            decreases n - e,
        {
            e = e + 1;
        }
        proof {
            assert(comp_end(rest@, e as int) == e);
        }
        let mut acc: u64 = 0;
        let mut over = false;
        let mut ok = e >= 1;
        let ghost mut bad: int = 0;
        let mut p: usize = 0;
        while p < e && ok
            invariant
                p <= e <= n,
                n == rest@.len(),
                ok ==> e >= 1,
                ok ==> forall|t: int| 0 <= t < p ==> is_digit(#[trigger] rest@[t]),
                !ok ==> (e < 1 || (0 <= bad < e && !is_digit(rest@[bad]))),
                ok && !over ==> acc as int == crate::json::dval(rest@.subrange(0, p as int), 0)
                    && acc <= u32::MAX,
                ok && over ==> crate::json::dval(rest@.subrange(0, p as int), 0) > u32::MAX,
                ok && p == e && !over ==> acc as int == crate::json::dval(
                    rest@.subrange(0, e as int),
                    0,
                ),
            decreases e - p + (if ok { 1int } else { 0int }),
        {
            let c = rest[p];
            if c < 0x30 || c > 0x39 {
                ok = false;
                proof {
                    bad = p as int;
                }
            } else {
                proof {
                    let pre = rest@.subrange(0, p as int);
                    assert(rest@.subrange(0, p as int + 1) =~= pre.push(rest@[p as int]));
                    crate::json::lemma_dval_push(pre, rest@[p as int], 0);
                }
                if !over {
                    let acc2 = acc * 10 + ((c - 0x30) as u64);
                    if acc2 > 0xffffffff {
                        over = true;
                    } else {
                        acc = acc2;
                    }
                }
                p = p + 1;
            }
        }
        let valid = ok && !over;
        let ghost old_rest = rest@;
        let ghost old_out = out@;
        proof {
            let chunk = old_rest.subrange(0, e as int);
            if valid {
                assert(forall|t: int| 0 <= t < e ==> is_digit(#[trigger] chunk[t])) by {
                    assert(forall|t: int|
                        0 <= t < e ==> #[trigger] chunk[t] == old_rest[t] && is_digit(
                            old_rest[t],
                        ));
                }
            } else {
                if ok {
                    assert(crate::json::dval(chunk, 0) > u32::MAX);
                } else {
                    if e >= 1 {
                        assert(chunk[bad] == old_rest[bad]);
                        assert(!is_digit(chunk[bad]));
                    }
                }
            }
        }
        if valid {
            out.push(acc);
        }
        if e == n {
            rest = Vec::new();
            proof {
                assert(version_parts(rest@) =~= Seq::<int>::empty());
                lemma_version_parts_step(old_rest, e as int, valid, acc as int);
                if valid {
                    lemma_map_push(old_out, acc);
                }
                assert(out@.map_values(|x: u64| x as int) + version_parts(rest@) =~= version_parts(
                    s@,
                ));
            }
        } else {
            let next = copy_range(&rest, e + 1, n);
            rest = next;
            proof {
                lemma_version_parts_step(old_rest, e as int, valid, acc as int);
                if valid {
                    lemma_map_push(old_out, acc);
                }
                assert(out@.map_values(|x: u64| x as int) + version_parts(rest@) =~= version_parts(
                    s@,
                ));
            }
        }
    }
}

proof fn lemma_map_push(v: Seq<u64>, x: u64)
    ensures
        ints_of(v.push(x)) =~= ints_of(v).push(x as int),
{
}

/// One step of the component scan: how `version_parts` of a string relates
/// to its first component and the remainder.
proof fn lemma_version_parts_step(s: Seq<u8>, e: int, valid: bool, value: int)
    requires
        s.len() > 0,
        0 <= e <= s.len(),
        comp_end(s, 0) == e,
        valid == (e >= 1 && (forall|t: int|
            0 <= t < e ==> is_digit(#[trigger] s.subrange(0, e)[t])) && crate::json::dval(
            s.subrange(0, e),
            0,
        ) <= u32::MAX),
        valid ==> value == crate::json::dval(s.subrange(0, e), 0),
    ensures
        e == s.len() && valid ==> version_parts(s) == seq![value],
        e == s.len() && !valid ==> version_parts(s) == Seq::<int>::empty(),
        e < s.len() && valid ==> version_parts(s) == seq![value] + version_parts(
            s.subrange(e + 1, s.len() as int),
        ),
        e < s.len() && !valid ==> version_parts(s) == version_parts(
            s.subrange(e + 1, s.len() as int),
        ),
{
    if e == s.len() && valid {
        assert(version_parts(s) =~= seq![value]);
    }
}

/// Compares two dotted version strings componentwise numerically: negative
/// when the first is older, zero when equal, positive when newer.
pub fn compare_versions(v1: &Vec<u8>, v2: &Vec<u8>) -> (r: i32)
    ensures
        r == cmp_parts(version_parts(v1@), version_parts(v2@)),
{
    let a = parse_version_parts(v1);
    let b = parse_version_parts(v2);
    let mut i: usize = 0;
    let ghost pa = version_parts(v1@);
    let ghost pb = version_parts(v2@);
    proof {
        assert(pa.skip(0) =~= pa);
        assert(pb.skip(0) =~= pb);
    }
    while i < a.len() && i < b.len()
        invariant
            i <= a@.len(),
            i <= b@.len(),
            pa == version_parts(v1@),
            pb == version_parts(v2@),
            ints_of(a@) == pa,
            ints_of(b@) == pb,
            pa.len() == a@.len(),
            pb.len() == b@.len(),
            cmp_parts(pa, pb) == cmp_parts(pa.skip(i as int), pb.skip(i as int)),
        decreases a@.len() - i,
    {
        proof {
            lemma_ints_index(a@, i as int);
            lemma_ints_index(b@, i as int);
            assert(pa.skip(i as int)[0] == pa[i as int]);
            assert(pb.skip(i as int)[0] == pb[i as int]);
            assert(pa.skip(i as int).drop_first() =~= pa.skip(i as int + 1));
            assert(pb.skip(i as int).drop_first() =~= pb.skip(i as int + 1));
        }
        if a[i] < b[i] {
            return -1;
        }
        if a[i] > b[i] {
            return 1;
        }
        i = i + 1;
    }
    proof {
        assert(pa.len() == a@.len() && pb.len() == b@.len());
        assert(pa.skip(i as int).len() == pa.len() - i);
        assert(pb.skip(i as int).len() == pb.len() - i);
    }
    if a.len() == b.len() {
        0
    } else if a.len() < b.len() {
        -1
    } else {
        1
    }
}

} // verus!



verus! {

/// One past the last byte of the line starting at `i`: the next newline, or
/// the end of the text.
pub open spec fn line_end(s: Seq<u8>, i: int) -> int
    decreases s.len() - i,
{
    if 0 <= i && i < s.len() && s[i] != 0x0a {
        line_end(s, i + 1)
    } else {
        i
    }
}

/// The text after `key` on the first line that begins with `key`, scanning
/// from position `i`; nothing when no line matches.
pub open spec fn line_value_from(s: Seq<u8>, i: int, key: Seq<u8>) -> Option<Seq<u8>>
    decreases s.len() - i,
{
    if i < 0 || i >= s.len() {
        None
    } else {
        let e = line_end(s, i);
        if !(i <= e && e <= s.len()) {
            None
        } else if e - i >= key.len() && s.subrange(i, i + key.len() as int) == key {
            Some(s.subrange(i + key.len() as int, e))
        } else if e < s.len() {
            line_value_from(s, e + 1, key)
        } else {
            None
        }
    }
}

/// The value of the first line beginning with `key`.
pub open spec fn line_value(s: Seq<u8>, key: Seq<u8>) -> Option<Seq<u8>> {
    line_value_from(s, 0, key)
}

proof fn lemma_line_end_at(s: Seq<u8>, i: int, e: int)
    requires
        0 <= i <= e <= s.len(),
        forall|t: int| i <= t < e ==> #[trigger] s[t] != 0x0a,
        e == s.len() || s[e] == 0x0a,
    ensures
        line_end(s, i) == e,
    decreases e - i,
{
    if i < e {
        lemma_line_end_at(s, i + 1, e);
    }
}

/// Finds the value of the first line of `content` that begins with `lit`.
fn find_line_value(content: &Vec<u8>, lit: &str) -> (r: Option<Vec<u8>>)
    requires
        vstd::string::is_ascii(lit),
    ensures
        match r {
            Some(v) => line_value(content@, ascii_seq(lit@)) == Some(v@),
            None => line_value(content@, ascii_seq(lit@)) is None,
        },
{
    let pat = crate::paths::lit_vec(lit);
    let klen = pat.len();
    let n = content.len();
    let mut p: usize = 0;
    let ghost key = ascii_seq(lit@);
    loop
        invariant
            p <= n,
            n == content@.len(),
            key == ascii_seq(lit@),
            klen == key.len(),
            pat@ == key,
            line_value_from(content@, 0, key) == line_value_from(content@, p as int, key),
        decreases n - p,
    {
        if p >= n {
            return None;
        }
        let mut e: usize = p;
        while e < n && content[e] != 0x0a
            invariant
                p <= e <= n,
                n == content@.len(),
                forall|t: int| p <= t < e ==> #[trigger] content@[t] != 0x0a,
            decreases n - e,
        {
            e = e + 1;
        }
        proof {
            lemma_line_end_at(content@, p as int, e as int);
        }
        if e - p >= klen && crate::payload::bytes_at(content, p, &pat) {
            return Some(copy_range(content, p + klen, e));
        }
        if e < n {
            p = e + 1;
        } else {
            return None;
        }
    }
}

/// One past the last byte of the leading whitespace-free token.
pub open spec fn token_end(s: Seq<u8>, i: int) -> int
    decreases s.len() - i,
{
    if 0 <= i && i < s.len() && s[i] != 0x20 && s[i] != 0x09 {
        token_end(s, i + 1)
    } else {
        i
    }
}

proof fn lemma_token_end_at(s: Seq<u8>, i: int, e: int)
    requires
        0 <= i <= e <= s.len(),
        forall|t: int| i <= t < e ==> #[trigger] s[t] != 0x20 && s[t] != 0x09,
        e == s.len() || s[e] == 0x20 || s[e] == 0x09,
    ensures
        token_end(s, i) == e,
    decreases e - i,
{
    if i < e {
        lemma_token_end_at(s, i + 1, e);
    }
}

/// The executable a desktop entry names: the first whitespace-separated
/// token after `Exec=` on the first such line.
pub open spec fn desktop_exec_of(content: Seq<u8>) -> Seq<u8> {
    match line_value(content, ascii_seq("Exec="@)) {
        Some(v) => v.subrange(0, token_end(v, 0)),
        None => Seq::empty(),
    }
}

/// Whether the entry has an `Exec=` line at all.
pub open spec fn desktop_has_exec(content: Seq<u8>) -> bool {
    line_value(content, ascii_seq("Exec="@)) is Some
}

/// The recorded version: the `X-LXE-Version=` line, `0.0.0` when absent.
pub open spec fn desktop_version_of(content: Seq<u8>) -> Seq<u8> {
    match line_value(content, ascii_seq("X-LXE-Version="@)) {
        Some(v) => v,
        None => ascii_seq("0.0.0"@),
    }
}

/// Reads an installed application's desktop entry text: the launch target
/// (first `Exec=` line, its first whitespace-separated token) and the
/// recorded version (`X-LXE-Version=`, defaulting to `0.0.0`); nothing when
/// the text has no `Exec=` line.
pub fn parse_desktop_text(content: &Vec<u8>) -> (r: Option<(Vec<u8>, Vec<u8>)>)
    ensures
        match r {
            Some(ev) => desktop_has_exec(content@) && ev.0@ == desktop_exec_of(content@) && ev.1@
                == desktop_version_of(content@),
            None => !desktop_has_exec(content@),
        },
{
    proof {
        reveal_strlit("Exec=");
        reveal_strlit("X-LXE-Version=");
        reveal_strlit("0.0.0");
        assert(vstd::string::is_ascii("Exec=") && vstd::string::is_ascii("X-LXE-Version=")
            && vstd::string::is_ascii("0.0.0"));
    }
    let v = match find_line_value(content, "Exec=") {
        Some(v) => v,
        None => {
            return None;
        },
    };
    let n = v.len();
    let mut e: usize = 0;
    while e < n && v[e] != 0x20 && v[e] != 0x09
        invariant
            e <= n,
            n == v@.len(),
            forall|t: int| 0 <= t < e ==> #[trigger] v@[t] != 0x20 && v@[t] != 0x09,
        decreases n - e,
    {
        e = e + 1;
    }
    proof {
        lemma_token_end_at(v@, 0, e as int);
    }
    let exec_tok = copy_range(&v, 0, e);
    let version = match find_line_value(content, "X-LXE-Version=") {
        Some(w) => w,
        None => crate::paths::lit_vec("0.0.0"),
    };
    Some((exec_tok, version))
}

/// The installation state the detection table assigns: no desktop entry is
/// fresh; an unreadable entry or a missing executable is corrupted; else the
/// componentwise version order decides between installed, upgradeable and
/// downgrade-blocked.
pub open spec fn install_state_fits(
    desktop_exists: bool,
    parsed: Option<(Seq<u8>, Seq<u8>)>,
    exec_exists: bool,
    install_path: Seq<u8>,
    package_version: Seq<u8>,
    is_system: bool,
    r: InstallState,
) -> bool {
    if !desktop_exists {
        r is Fresh
    } else {
        match parsed {
            None => r matches InstallState::Corrupted { install_path: ip, is_system: sys } && ip@
                == install_path && sys == is_system,
            Some(ev) => {
                if !exec_exists {
                    r matches InstallState::Corrupted { install_path: ip, is_system: sys } && ip@
                        == install_path && sys == is_system
                } else {
                    let c = cmp_parts(version_parts(ev.1), version_parts(package_version));
                    if c == 0 {
                        r matches InstallState::Installed { install_path: ip, version: v, is_system: sys }
                            && ip@ == install_path && v@ == ev.1 && sys == is_system
                    } else if c < 0 {
                        r matches InstallState::Upgradeable {
                            install_path: ip,
                            old_version: ov,
                            new_version: nv,
                            is_system: sys,
                        } && ip@ == install_path && ov@ == ev.1 && nv@ == package_version && sys
                            == is_system
                    } else {
                        r matches InstallState::Downgrade {
                            install_path: ip,
                            installed_version: iv,
                            package_version: pv,
                        } && ip@ == install_path && iv@ == ev.1 && pv@ == package_version
                    }
                }
            },
        }
    }
}

/// The view of a parsed desktop entry.
pub open spec fn parsed_view(p: Option<(Vec<u8>, Vec<u8>)>) -> Option<(Seq<u8>, Seq<u8>)> {
    match p {
        Some(ev) => Some((ev.0@, ev.1@)),
        None => None,
    }
}

/// Classifies an existing installation from what the caller observed: the
/// desktop entry's presence and parsed contents, and whether the launch
/// target exists on disk.
pub fn classify_install(
    desktop_exists: bool,
    parsed: Option<(Vec<u8>, Vec<u8>)>,
    exec_exists: bool,
    install_path: Vec<u8>,
    package_version: &Vec<u8>,
    is_system: bool,
) -> (r: InstallState)
    ensures
        install_state_fits(
            desktop_exists,
            parsed_view(parsed),
            exec_exists,
            install_path@,
            package_version@,
            is_system,
            r,
        ),
{
    if !desktop_exists {
        return InstallState::Fresh;
    }
    let ev = match parsed {
        Some(ev) => ev,
        None => {
            return InstallState::Corrupted { install_path, is_system };
        },
    };
    if !exec_exists {
        return InstallState::Corrupted { install_path, is_system };
    }
    let c = compare_versions(&ev.1, package_version);
    if c == 0 {
        InstallState::Installed { install_path, version: ev.1, is_system }
    } else if c < 0 {
        let nv = copy_range(package_version, 0, package_version.len());
        proof {
            assert(nv@ =~= package_version@);
        }
        InstallState::Upgradeable { install_path, old_version: ev.1, new_version: nv, is_system }
    } else {
        let pv = copy_range(package_version, 0, package_version.len());
        proof {
            assert(pv@ =~= package_version@);
        }
        InstallState::Downgrade { install_path, installed_version: ev.1, package_version: pv }
    }
}

} // verus!
