//! The build configuration on plain values: identity, build knobs, runtime
//! and signing paths, with the validation rules and the output-name rule.
//! Reading the configuration file itself is the shell's work; the rules on
//! what it holds are the library's.

use vstd::prelude::*;

use crate::LxeError;
use crate::json::ascii_seq;
use crate::paths::{contains_sub, contains_bytes, joined, path_join};

verus! {

/// Identity of the packaged application.
pub struct PackageConfig {
    pub name: Vec<u8>,
    pub id: Vec<u8>,
    pub version: Vec<u8>,
    pub executable: Vec<u8>,
    pub icon: Option<Vec<u8>>,
    pub description: Option<Vec<u8>>,
    pub categories: Vec<Vec<u8>>,
    pub terminal: bool,
    pub wm_class: Option<Vec<u8>>,
}

/// Build knobs: the input tree, an optional pre-build script, the
/// compression level and an optional output path.
pub struct BuildConfig {
    pub input: Vec<u8>,
    pub script: Option<Vec<u8>>,
    pub compression: i32,
    pub output: Option<Vec<u8>>,
}

/// Optional path of a custom runtime binary.
pub struct RuntimeConfig {
    pub path: Option<Vec<u8>>,
}

/// Optional path of the signing key.
pub struct SecurityConfig {
    pub key: Option<Vec<u8>>,
}

/// The whole configuration document.
pub struct LxeConfig {
    pub package: PackageConfig,
    pub build: BuildConfig,
    pub runtime: RuntimeConfig,
    pub security: SecurityConfig,
}

/// The default input directory.
pub fn default_input() -> (r: Vec<u8>)
    ensures
        r@ == ascii_seq("./dist"@),
{
    proof {
        reveal_strlit("./dist");
        assert(vstd::string::is_ascii("./dist"));
    }
    crate::paths::lit_vec("./dist")
}

/// The default compression level.
pub fn default_compression() -> (r: i32)
    ensures
        r == 19,
{
    19
}

/// A configuration passes validation exactly when the input tree exists or
/// a build script will produce it, the compression level lies in the
/// format's range, the application id is reverse-DNS (holds a dot), and a
/// configured icon exists in the input tree once that tree does.
pub open spec fn config_valid(
    c: LxeConfig,
    input_exists: bool,
    icon_exists: bool,
) -> bool {
    &&& (c.build.script is Some || input_exists)
    &&& 1 <= c.build.compression <= 22
    &&& contains_sub(c.package.id@, seq![0x2eu8])
    &&& ((input_exists && c.package.icon is Some) ==> icon_exists)
}

impl LxeConfig {
    /// Validates the configuration against what the caller observed of the
    /// filesystem: whether the input tree exists, and whether the configured
    /// icon exists inside it.
    pub fn validate(&self, input_exists: bool, icon_exists: bool) -> (r: Result<(), LxeError>)
        ensures
            match r {
                Ok(()) => config_valid(*self, input_exists, icon_exists),
                Err(e) => !config_valid(*self, input_exists, icon_exists) && e
                    == LxeError::ConfigInvalid,
            },
    {
        if self.build.script.is_none() && !input_exists {
            return Err(LxeError::ConfigInvalid);
        }
        if self.build.compression < 1 || self.build.compression > 22 {
            return Err(LxeError::ConfigInvalid);
        }
        let mut dot: Vec<u8> = Vec::new();
        dot.push(0x2e);
        proof {
            assert(dot@ =~= seq![0x2eu8]);
        }
        if !contains_bytes(&self.package.id, &dot) {
            return Err(LxeError::ConfigInvalid);
        }
        if input_exists && self.package.icon.is_some() && !icon_exists {
            return Err(LxeError::ConfigInvalid);
        }
        Ok(())
    }

    /// The input tree, resolved against the base directory.
    pub fn input_path(&self, base_dir: &Vec<u8>) -> (r: Vec<u8>)
        ensures
            r@ == joined(base_dir@, self.build.input@),
    {
        path_join(base_dir, &self.build.input)
    }

    /// The output file, resolved against the base directory: the configured
    /// path, or the last dot-separated segment of the id with `.lxe`.
    pub fn output_path(&self, base_dir: &Vec<u8>) -> (r: Vec<u8>)
        ensures
            match self.build.output {
                Some(o) => r@ == joined(base_dir@, o@),
                None => r@ == joined(
                    base_dir@,
                    self.package.id@.subrange(
                        crate::installer::last_dot_start(
                            self.package.id@,
                            self.package.id@.len() as int,
                        ),
                        self.package.id@.len() as int,
                    ) + ascii_seq(".lxe"@),
                ),
            },
    {
        match &self.build.output {
            Some(o) => path_join(base_dir, o),
            None => {
                let mut name = crate::installer::last_dot_segment(&self.package.id);
                proof {
                    reveal_strlit(".lxe");
                    assert(vstd::string::is_ascii(".lxe"));
                }
                crate::json::emit_lit(&mut name, ".lxe");
                path_join(base_dir, &name)
            },
        }
    }

    /// The custom runtime path, resolved against the base directory.
    pub fn runtime_path(&self, base_dir: &Vec<u8>) -> (r: Option<Vec<u8>>)
        ensures
            match self.runtime.path {
                Some(p) => r matches Some(q) && q@ == joined(base_dir@, p@),
                None => r is None,
            },
    {
        match &self.runtime.path {
            Some(p) => Some(path_join(base_dir, p)),
            None => None,
        }
    }

    /// The signing key path, resolved against the base directory.
    pub fn key_path(&self, base_dir: &Vec<u8>) -> (r: Option<Vec<u8>>)
        ensures
            match self.security.key {
                Some(p) => r matches Some(q) && q@ == joined(base_dir@, p@),
                None => r is None,
            },
    {
        match &self.security.key {
            Some(p) => Some(path_join(base_dir, p)),
            None => None,
        }
    }
}

} // verus!
