use lxe::codec::{hex_encode, le32_encode, le64_encode};
use lxe::detect::{extract_string_value, to_kebab_case, to_title_case};
use lxe::extractor::{is_safe_entry_path, plan_extraction, ExtractProgress};
use lxe::installer::InstallConfig;
use lxe::manifest::InstallManifest;
use lxe::metadata::{parse_metadata, InstallerMetadata, LxeMetadata};
use lxe::paths as lxepaths;
use lxe::payload::{
    assemble_package, find_subsequence, locate_header, parse_layout, read_payload_info,
    verify_checksum,
};
use lxe::polkit::{policy_file_content, POLICY_FILE_PATH};
use lxe::signing::{
    check_package_signature, create_signable_data, sha256, sign_metadata, LxeKeyPair,
};
use lxe::state::{compare_versions, InstallState, WizardMode};
use lxe::LxeError;

fn sample_metadata() -> LxeMetadata {
    LxeMetadata {
        format_version: 1,
        app_id: b"com.example.Test".to_vec(),
        name: b"Test App".to_vec(),
        version: b"1.0.0".to_vec(),
        arch: b"x86_64".to_vec(),
        install_size: 1024 * 1024,
        exec_path: b"test-app".to_vec(),
        icon: None,
        categories: vec![b"Application".to_vec()],
        description: None,
        payload_checksum: b"abcd1234".to_vec(),
        min_runtime_version: None,
        license: None,
        homepage: None,
        exec_args: None,
        terminal: false,
        wm_class: None,
        installer: None,
        public_key: None,
        signature: None,
    }
}

#[test]
fn test_metadata_serialization() {
    let meta = sample_metadata();
    let json = meta.serialize();
    let parsed = parse_metadata(&json).unwrap();
    assert_eq!(parsed.app_id, b"com.example.Test".to_vec());
    assert_eq!(parsed.name, b"Test App".to_vec());
}

#[test]
fn test_desktop_filename() {
    let mut meta = sample_metadata();
    meta.app_id = b"com.discord.Discord".to_vec();
    assert_eq!(meta.desktop_filename(), b"com.discord.Discord.desktop".to_vec());
}

#[test]
fn test_safety_blocks_root() {
    let id = b"com.test.App".to_vec();
    assert!(!lxepaths::is_safe_to_delete(&b"/".to_vec(), &id));
    assert!(!lxepaths::is_safe_to_delete(&b"/home".to_vec(), &id));
    assert!(!lxepaths::is_safe_to_delete(&b"/usr".to_vec(), &id));
}

#[test]
fn test_safety_requires_app_id() {
    let path = b"/home/user/.local/share/some-app".to_vec();
    assert!(!lxepaths::is_safe_to_delete(&path, &b"com.test.App".to_vec()));
}

#[test]
fn test_safety_allows_valid_paths() {
    let id = b"com.test.App".to_vec();
    let path = b"/home/user/.local/share/com.test.App".to_vec();
    assert!(lxepaths::is_safe_to_delete(&path, &id));
    let system_path = b"/usr/share/com.test.App".to_vec();
    assert!(lxepaths::is_safe_to_delete(&system_path, &id));
}

#[test]
fn test_find_subsequence() {
    let data = b"hello world LXE\x00\x01 test".to_vec();
    let magic = b"LXE\x00\x01".to_vec();
    assert_eq!(find_subsequence(&data, &magic), Some(12));
}

#[test]
fn test_find_subsequence_not_found() {
    let data = b"hello world".to_vec();
    let magic = b"LXE\x00\x01".to_vec();
    assert_eq!(find_subsequence(&data, &magic), None);
}

#[test]
fn test_scan_start_calculation() {
    let small_file_size = 1_500_000u64;
    let scan_start = if small_file_size < 2 * 1024 * 1024 { 0 } else { 1024 * 1024 };
    assert_eq!(scan_start, 0);

    let large_file_size = 50_000_000u64;
    let scan_start = if large_file_size < 2 * 1024 * 1024 { 0 } else { 1024 * 1024 };
    assert_eq!(scan_start, 1024 * 1024);
}

#[test]
fn installer_test_install_config_paths() {
    let config = InstallConfig {
        base_dir: b"/home/user/.local".to_vec(),
        is_system: false,
        create_desktop_entry: true,
        update_icon_cache: true,
    };
    assert_eq!(
        config.applications_dir(),
        b"/home/user/.local/share/applications".to_vec()
    );
    assert_eq!(config.bin_dir(), b"/home/user/.local/bin".to_vec());
    assert_eq!(
        config.app_dir(&b"com.example.App".to_vec()),
        b"/home/user/.local/share/com.example.App".to_vec()
    );
}

#[test]
fn test_install_config_paths() {
    let config = InstallConfig {
        base_dir: b"/home/user/.local".to_vec(),
        is_system: false,
        create_desktop_entry: true,
        update_icon_cache: true,
    };
    assert_eq!(
        config.applications_dir(),
        b"/home/user/.local/share/applications".to_vec()
    );
    assert_eq!(config.bin_dir(), b"/home/user/.local/bin".to_vec());
    assert_eq!(
        config.app_dir(&b"com.example.App".to_vec()),
        b"/home/user/.local/share/com.example.App".to_vec()
    );
}

#[test]
fn test_manifest_creation() {
    let mut manifest = InstallManifest::new(
        b"com.example.app".to_vec(),
        Some(b"Example App".to_vec()),
        b"1.0.0".to_vec(),
        false,
    );
    manifest.add_file(b"/home/user/.local/share/com.example.app/bin/app".to_vec());
    manifest.add_file(b"/home/user/.local/share/applications/com.example.app.desktop".to_vec());
    assert_eq!(manifest.files.len(), 2);
    assert!(manifest.installed_at.starts_with(b"unix:"));
}

#[test]
fn test_compare_versions() {
    assert_eq!(compare_versions(&b"1.0.0".to_vec(), &b"1.0.0".to_vec()), 0);
    assert_eq!(compare_versions(&b"1.0.0".to_vec(), &b"2.0.0".to_vec()), -1);
    assert_eq!(compare_versions(&b"2.0.0".to_vec(), &b"1.0.0".to_vec()), 1);
    assert_eq!(compare_versions(&b"1.0".to_vec(), &b"1.0.0".to_vec()), -1);
    assert_eq!(compare_versions(&b"1.2.3".to_vec(), &b"1.2.4".to_vec()), -1);
}

#[test]
fn test_wizard_mode_from_fresh() {
    let state = InstallState::Fresh;
    match state.to_wizard_mode(&b"1.0.0".to_vec()) {
        WizardMode::Install => {}
        _ => panic!("Expected Install mode"),
    }
}

#[test]
fn test_wizard_mode_from_installed() {
    let state = InstallState::Installed {
        install_path: b"/home/user/.local".to_vec(),
        version: b"1.0.0".to_vec(),
        is_system: false,
    };
    match state.to_wizard_mode(&b"1.0.0".to_vec()) {
        WizardMode::Maintenance { can_upgrade, .. } => {
            assert!(!can_upgrade);
        }
        _ => panic!("Expected Maintenance mode"),
    }
}

#[test]
fn test_is_root() {
    // The privilege check itself reads the process state and lives outside
    // the library; the decision gate is pure.
    assert!(lxe::polkit::may_proceed(true, false));
    assert!(lxe::polkit::may_proceed(false, true));
    assert!(!lxe::polkit::may_proceed(false, false));
}

#[test]
fn test_policy_file_content() {
    let content = policy_file_content();
    assert!(content.contains("org.lxe.install.system"));
    assert!(content.contains("org.lxe.uninstall.system"));
}

#[test]
fn test_policy_path_constant() {
    assert!(POLICY_FILE_PATH.ends_with(".policy"));
    assert!(POLICY_FILE_PATH.contains("polkit-1"));
}

#[test]
fn test_to_title_case() {
    assert_eq!(to_title_case(&b"my-cool-app".to_vec()), b"My Cool App".to_vec());
    assert_eq!(to_title_case(&b"my_app".to_vec()), b"My App".to_vec());
    assert_eq!(to_title_case(&b"myapp".to_vec()), b"Myapp".to_vec());
    assert_eq!(to_title_case(&b"openshot-qt".to_vec()), b"Openshot Qt".to_vec());
}

#[test]
fn test_to_kebab_case() {
    assert_eq!(to_kebab_case(&b"My Cool App".to_vec()), b"my-cool-app".to_vec());
    assert_eq!(to_kebab_case(&b"My_App".to_vec()), b"my-app".to_vec());
}

#[test]
fn test_generate_and_sign() {
    let keypair = LxeKeyPair::generate();
    let data = b"package data".to_vec();
    let sig = lxe::signing::ed25519_sign(&keypair.seed, &data);
    let sig_b64 = lxe::signing::b64_encode(&sig);
    let pk_b64 = keypair.public_key_base64();
    let result = verify_signature_ok(&data, &sig_b64, &pk_b64);
    assert!(result, "Signature should be valid");
}

fn verify_signature_ok(data: &Vec<u8>, sig_b64: &Vec<u8>, pk_b64: &Vec<u8>) -> bool {
    let pk = lxe::signing::b64_decode(pk_b64).unwrap();
    let sig = lxe::signing::b64_decode(sig_b64).unwrap();
    lxe::signing::ed25519_verify(&pk, data, &sig)
}

#[test]
fn test_tampered_data_fails() {
    let keypair = LxeKeyPair::generate();
    let data = b"package data".to_vec();
    let sig = lxe::signing::ed25519_sign(&keypair.seed, &data);
    let sig_b64 = lxe::signing::b64_encode(&sig);
    let pk_b64 = keypair.public_key_base64();
    let tampered = b"package dataX".to_vec();
    assert!(!verify_signature_ok(&tampered, &sig_b64, &pk_b64));
}

#[test]
fn test_wrong_key_fails() {
    let keypair1 = LxeKeyPair::generate();
    let keypair2 = LxeKeyPair::generate();
    let data = b"package data".to_vec();
    let sig = lxe::signing::ed25519_sign(&keypair1.seed, &data);
    let sig_b64 = lxe::signing::b64_encode(&sig);
    let wrong_pk = keypair2.public_key_base64();
    assert!(!verify_signature_ok(&data, &sig_b64, &wrong_pk));
}

#[test]
fn test_create_signable_data() {
    let metadata = b"{\"app_id\":\"com.test.App\"}".to_vec();
    let checksum = b"abcd1234".to_vec();
    let data = create_signable_data(&metadata, &checksum).unwrap();
    assert_eq!(data.len(), metadata.len() + 4);
}

// --- format round trips and boundary behaviors ---

#[test]
fn round_trip_full_metadata() {
    let mut meta = sample_metadata();
    meta.icon = Some(b"icon.png".to_vec());
    meta.description = Some(b"A test \"quoted\" app\n".to_vec());
    meta.wm_class = Some(b"TestApp".to_vec());
    meta.terminal = true;
    meta.installer = Some(InstallerMetadata {
        show_launch: true,
        allow_custom_dir: false,
        welcome_title: Some(b"Welcome".to_vec()),
        welcome_text: None,
        finish_title: None,
        finish_text: None,
        accent_color: Some(b"#007ACC".to_vec()),
        theme: None,
        license_text: None,
        banner: None,
        logo: None,
    });
    let json = meta.serialize();
    let parsed = parse_metadata(&json).unwrap();
    assert_eq!(parsed.serialize(), json);
    assert_eq!(parsed.description, meta.description);
    assert_eq!(parsed.terminal, true);
    let inst = parsed.installer.unwrap();
    assert_eq!(inst.welcome_title, Some(b"Welcome".to_vec()));
    assert_eq!(inst.accent_color, Some(b"#007ACC".to_vec()));
}

#[test]
fn parse_tolerates_unknown_members() {
    let json = b"{\"format_version\":1,\"app_id\":\"a.b\",\"name\":\"N\",\"version\":\"1\",\"arch\":\"x\",\"install_size\":5,\"exec\":\"run\",\"future_field\":{\"x\":[1,2,\"s\"]},\"categories\":[],\"payload_checksum\":\"aa\",\"terminal\":false}".to_vec();
    let m = parse_metadata(&json).unwrap();
    assert_eq!(m.app_id, b"a.b".to_vec());
    assert_eq!(m.install_size, 5);
}

#[test]
fn parse_rejects_missing_required() {
    let json = b"{\"format_version\":1,\"app_id\":\"a.b\"}".to_vec();
    match parse_metadata(&json) {
        Err(e) => assert_eq!(e, LxeError::MetadataParseError),
        Ok(_) => panic!("expected a parse error"),
    }
}

#[test]
fn package_assemble_locate_read() {
    let runtime = b"\x7fELF fake runtime bytes".to_vec();
    let meta = sample_metadata();
    let tar = b"fake tar stream".to_vec();
    let payload = lxe::payload::zstd_compress(&tar, 3).unwrap();
    let digest = sha256(&payload);
    let mut m = meta;
    m.payload_checksum = hex_encode(&digest);
    let mjson = m.serialize();
    let pkg = assemble_package(&runtime, &mjson, &digest, &payload);
    assert_eq!(locate_header(&pkg), Some(runtime.len()));
    let info = read_payload_info(&pkg).unwrap();
    assert_eq!(info.metadata.app_id, b"com.example.Test".to_vec());
    assert_eq!(info.layout.header_offset, runtime.len());
    assert!(verify_checksum(&pkg, &info));
    let extracted = lxe::codec::copy_range(
        &pkg,
        info.layout.header_offset + 44 + info.layout.meta_len,
        pkg.len() - 16,
    );
    let decompressed = lxe::payload::zstd_decompress(&extracted).unwrap();
    assert_eq!(decompressed, tar);
}

#[test]
fn signed_package_round_trip() {
    let runtime = b"runtime".to_vec();
    let tar = b"tar bytes".to_vec();
    let payload = lxe::payload::zstd_compress(&tar, 3).unwrap();
    let digest = sha256(&payload);
    let mut m = sample_metadata();
    m.payload_checksum = hex_encode(&digest);
    let kp = LxeKeyPair::generate();
    sign_metadata(&mut m, &kp, &digest);
    assert!(m.is_signed());
    let mjson = m.serialize();
    let pkg = assemble_package(&runtime, &mjson, &digest, &payload);
    let info = read_payload_info(&pkg).unwrap();
    assert!(info.metadata.is_signed());
    // tamper with one payload byte: the digest check must now fail
    let mut bad = pkg.clone();
    let pstart = info.layout.header_offset + 44 + info.layout.meta_len;
    bad[pstart] ^= 0xff;
    let bad_info = read_payload_info(&bad).unwrap();
    assert!(!verify_checksum(&bad, &bad_info));
    // tamper with a signed metadata field: verification must fail
    let mut m2 = parse_metadata(&mjson).unwrap();
    m2.name = b"Evil".to_vec();
    assert_eq!(
        check_package_signature(&m2, &digest),
        Err(LxeError::UnauthenticPackage)
    );
    // half a signature is malformed
    let mut m3 = parse_metadata(&mjson).unwrap();
    m3.signature = None;
    assert_eq!(
        check_package_signature(&m3, &digest),
        Err(LxeError::MalformedSignature)
    );
}

#[test]
fn sixteen_byte_footer_only_file_is_refused() {
    let mut f = 0u64.to_le_bytes().to_vec();
    f.extend_from_slice(&[0x00, 0x4c, 0x58, 0x45, 0xf0, 0x9f, 0x93, 0x01]);
    assert_eq!(f.len(), 16);
    assert!(parse_layout(&f).is_err());
}

#[test]
fn metadata_exactly_one_mib_accepted() {
    let runtime = b"rt".to_vec();
    let payload = b"p".to_vec();
    let digest = vec![0u8; 32];
    let meta = vec![0x20u8; 1024 * 1024];
    let pkg = assemble_package(&runtime, &meta, &digest, &payload);
    let layout = parse_layout(&pkg).unwrap();
    assert_eq!(layout.meta_len, 1024 * 1024);

    let meta_big = vec![0x20u8; 1024 * 1024 + 1];
    let mut pkg2: Vec<u8> = Vec::new();
    pkg2.extend_from_slice(&runtime);
    pkg2.extend_from_slice(&[0x00, 0x4c, 0x58, 0x45, 0xf0, 0x9f, 0x93, 0x01]);
    pkg2.extend_from_slice(&le32_encode((1024 * 1024 + 1) as u32));
    pkg2.extend_from_slice(&meta_big);
    pkg2.extend_from_slice(&digest);
    pkg2.extend_from_slice(&payload);
    pkg2.extend_from_slice(&le64_encode(runtime.len() as u64));
    pkg2.extend_from_slice(&[0x00, 0x4c, 0x58, 0x45, 0xf0, 0x9f, 0x93, 0x01]);
    assert_eq!(parse_layout(&pkg2), Err(LxeError::MetadataTooLarge));
}

#[test]
fn unsafe_tar_paths_are_refused() {
    assert!(!is_safe_entry_path(&b"../x".to_vec()));
    assert!(!is_safe_entry_path(&b"/etc/x".to_vec()));
    assert!(!is_safe_entry_path(&b"a/../x".to_vec()));
    assert!(is_safe_entry_path(&b"a/b..c/x".to_vec()));
    assert!(is_safe_entry_path(&b"./app/run".to_vec()));
    let entries = vec![(b"../x".to_vec(), b"data".to_vec())];
    assert_eq!(plan_extraction(entries), Err(LxeError::ExtractionFailed));
    let good = vec![(b"app/run".to_vec(), b"echo hi".to_vec())];
    assert!(plan_extraction(good).is_ok());
}

#[test]
fn tar_round_trip_through_outside_crates() {
    // build a tar in memory with the tar crate, then read it back through
    // the library's wrapper and plan the extraction
    let mut builder = tar::Builder::new(Vec::new());
    let data = b"echo hi\n";
    let mut header = tar::Header::new_gnu();
    header.set_path("app/run").unwrap();
    header.set_size(data.len() as u64);
    header.set_mode(0o755);
    header.set_cksum();
    builder.append(&header, &data[..]).unwrap();
    let tar_bytes = builder.into_inner().unwrap();
    let entries = lxe::payload::tar_entries(&tar_bytes).unwrap();
    assert_eq!(entries.len(), 1);
    assert_eq!(entries[0].0, b"app/run".to_vec());
    assert_eq!(entries[0].1, data.to_vec());
    assert!(plan_extraction(entries).is_ok());
}

#[test]
fn desktop_entry_content_fields() {
    let content = lxe::installer::desktop_entry_content(
        &b"Demo".to_vec(),
        &b"Demo".to_vec(),
        &b"/home/u/.local/share/com.ex.demo/run".to_vec(),
        &b"com.ex.demo".to_vec(),
        false,
        &b"Utility;".to_vec(),
        &b"demo".to_vec(),
        &b"1.0.0".to_vec(),
        &b"com.ex.demo".to_vec(),
        &b"/home/u/.local/bin/lxe-runtime".to_vec(),
    );
    let text = String::from_utf8(content).unwrap();
    assert!(text.contains("Exec=/home/u/.local/share/com.ex.demo/run"));
    assert!(text.contains("X-LXE-AppId=com.ex.demo"));
    assert!(text.contains("X-LXE-Version=1.0.0"));
    assert!(text.contains("Actions=Uninstall;"));
}

#[test]
fn hex_and_progress() {
    assert_eq!(hex_encode(&vec![0xde, 0xad, 0x00]), b"dead00".to_vec());
    assert_eq!(lxe::codec::hex_decode(&b"dead00".to_vec()), Ok(vec![0xde, 0xad, 0x00]));
    assert!(lxe::codec::hex_decode(&b"abc".to_vec()).is_err());
    let p = ExtractProgress::new(100);
    assert_eq!(p.total_bytes, 100);
    assert_eq!(p.extracted_bytes, 0);
}

#[test]
fn categories_and_basename() {
    let mut m = sample_metadata();
    m.categories = vec![b"Development".to_vec(), b"Utility".to_vec()];
    assert_eq!(m.categories_string(), b"Development;Utility;".to_vec());
    m.categories = vec![];
    assert_eq!(m.categories_string(), b"".to_vec());
    assert_eq!(lxe::installer::basename(&b"a/b/run".to_vec()), b"run".to_vec());
    assert_eq!(lxe::installer::last_dot_segment(&b"com.ex.demo".to_vec()), b"demo".to_vec());
}

#[test]
fn no_payload_in_plain_file() {
    let f = b"just some ordinary file".to_vec();
    assert_eq!(parse_layout(&f), Err(LxeError::NoPayload));
}

#[test]
fn manifest_json_round_trip() {
    let mut m = InstallManifest::new(
        b"com.example.app".to_vec(),
        Some(b"Example App".to_vec()),
        b"1.2.3".to_vec(),
        false,
    );
    m.add_file(b"/home/u/.local/share/com.example.app".to_vec());
    m.add_file(b"/home/u/.local/share/applications/com.example.app.desktop".to_vec());
    let json = m.serialize();
    let back = lxe::manifest::parse_manifest(&json).unwrap();
    assert_eq!(back.app_id, m.app_id);
    assert_eq!(back.name, m.name);
    assert_eq!(back.version, m.version);
    assert_eq!(back.installed_at, m.installed_at);
    assert_eq!(back.is_system, m.is_system);
    assert_eq!(back.files, m.files);

    let nameless = InstallManifest::new(b"a.b".to_vec(), None, b"1".to_vec(), true);
    let j2 = nameless.serialize();
    let b2 = lxe::manifest::parse_manifest(&j2).unwrap();
    assert_eq!(b2.name, None);
    assert!(b2.is_system);
    assert!(lxe::manifest::parse_manifest(&b"{}".to_vec()).is_err());
}

#[test]
fn desktop_text_round_trip_and_classify() {
    let content = lxe::installer::desktop_entry_content(
        &b"Demo".to_vec(),
        &b"Demo".to_vec(),
        &b"/home/u/.local/share/com.ex.demo/run".to_vec(),
        &b"com.ex.demo".to_vec(),
        false,
        &b"Utility;".to_vec(),
        &b"demo".to_vec(),
        &b"1.0.0".to_vec(),
        &b"com.ex.demo".to_vec(),
        &b"/home/u/.local/bin/lxe-runtime".to_vec(),
    );
    let (exec, version) = lxe::state::parse_desktop_text(&content).unwrap();
    assert_eq!(exec, b"/home/u/.local/share/com.ex.demo/run".to_vec());
    assert_eq!(version, b"1.0.0".to_vec());
    assert!(lxe::state::parse_desktop_text(&b"[Desktop Entry]\nName=x\n".to_vec()).is_none());

    // the detection table of the maintenance flow
    let ip = b"/home/u/.local".to_vec();
    let fresh = lxe::state::classify_install(false, None, false, ip.clone(), &b"1.0.0".to_vec(), false);
    assert!(matches!(fresh, InstallState::Fresh));
    let parsed = Some((exec.clone(), version.clone()));
    let same = lxe::state::classify_install(true, parsed.clone(), true, ip.clone(), &b"1.0.0".to_vec(), false);
    assert!(matches!(same, InstallState::Installed { .. }));
    let up = lxe::state::classify_install(true, parsed.clone(), true, ip.clone(), &b"1.1.0".to_vec(), false);
    assert!(matches!(up, InstallState::Upgradeable { .. }));
    let down = lxe::state::classify_install(true, parsed.clone(), true, ip.clone(), &b"0.9.0".to_vec(), false);
    assert!(matches!(down, InstallState::Downgrade { .. }));
    let broken = lxe::state::classify_install(true, parsed, false, ip.clone(), &b"1.0.0".to_vec(), false);
    assert!(matches!(broken, InstallState::Corrupted { .. }));
    let unreadable = lxe::state::classify_install(true, None, true, ip, &b"1.0.0".to_vec(), false);
    assert!(matches!(unreadable, InstallState::Corrupted { .. }));
}

fn sample_config() -> lxe::config::LxeConfig {
    lxe::config::LxeConfig {
        package: lxe::config::PackageConfig {
            name: b"Demo".to_vec(),
            id: b"com.ex.demo".to_vec(),
            version: b"1.0.0".to_vec(),
            executable: b"run".to_vec(),
            icon: None,
            description: None,
            categories: vec![b"Utility".to_vec()],
            terminal: false,
            wm_class: None,
        },
        build: lxe::config::BuildConfig {
            input: lxe::config::default_input(),
            script: None,
            compression: lxe::config::default_compression(),
            output: None,
        },
        runtime: lxe::config::RuntimeConfig { path: None },
        security: lxe::config::SecurityConfig { key: None },
    }
}

#[test]
fn config_validation_rules() {
    let c = sample_config();
    assert!(c.validate(true, true).is_ok());
    // input absent without a script
    assert_eq!(c.validate(false, true), Err(LxeError::ConfigInvalid));
    // a script excuses a missing input tree
    let mut with_script = sample_config();
    with_script.build.script = Some(b"make dist".to_vec());
    assert!(with_script.validate(false, true).is_ok());
    // compression range
    let mut bad_level = sample_config();
    bad_level.build.compression = 23;
    assert_eq!(bad_level.validate(true, true), Err(LxeError::ConfigInvalid));
    bad_level.build.compression = 0;
    assert_eq!(bad_level.validate(true, true), Err(LxeError::ConfigInvalid));
    // reverse-DNS id
    let mut bad_id = sample_config();
    bad_id.package.id = b"demo".to_vec();
    assert_eq!(bad_id.validate(true, true), Err(LxeError::ConfigInvalid));
    // configured icon must exist once the input tree does
    let mut with_icon = sample_config();
    with_icon.package.icon = Some(b"icon.png".to_vec());
    assert_eq!(with_icon.validate(true, false), Err(LxeError::ConfigInvalid));
    assert!(with_icon.validate(true, true).is_ok());
}

#[test]
fn config_output_name_rule() {
    let c = sample_config();
    let base = b"/work".to_vec();
    assert_eq!(c.output_path(&base), b"/work/demo.lxe".to_vec());
    let mut with_out = sample_config();
    with_out.build.output = Some(b"out/app.lxe".to_vec());
    assert_eq!(with_out.output_path(&base), b"/work/out/app.lxe".to_vec());
    assert_eq!(c.input_path(&base), b"/work/./dist".to_vec());
}

#[test]
fn path_stanza_decision() {
    let bin = b"/home/u/.local/bin".to_vec();
    let no_texts: Vec<Vec<u8>> = vec![];
    // PATH already carries the entry, three spellings
    assert!(!lxe::installer::path_needs_stanza(
        &b"/usr/bin:/home/u/.local/bin".to_vec(), &bin, &no_texts));
    assert!(!lxe::installer::path_needs_stanza(
        &b"$HOME/.local/bin:/usr/bin".to_vec(), &bin, &no_texts));
    assert!(!lxe::installer::path_needs_stanza(
        &b"/other/.local/bin".to_vec(), &bin, &no_texts));
    // nothing covers it
    assert!(lxe::installer::path_needs_stanza(&b"/usr/bin:/bin".to_vec(), &bin, &no_texts));
    // a shell config already carries the marker
    let texts = vec![b"export PATH=\"$HOME/.local/bin:$PATH\"\n".to_vec()];
    assert!(!lxe::installer::path_needs_stanza(&b"/usr/bin".to_vec(), &bin, &texts));
    let marked = vec![b"# Added by LXE installer\n".to_vec()];
    assert!(!lxe::installer::path_needs_stanza(&b"/usr/bin".to_vec(), &bin, &marked));
    assert!(lxe::installer::path_export_stanza().contains(".local/bin"));
}

#[test]
fn unpack_pipeline_and_highest_level() {
    // a tar built by the outside crate, compressed at the highest level the
    // format allows, must come back through the library's pipeline
    let mut builder = tar::Builder::new(Vec::new());
    let data = b"echo hi\n";
    let mut header = tar::Header::new_gnu();
    header.set_path("app/run").unwrap();
    header.set_size(data.len() as u64);
    header.set_mode(0o755);
    header.set_cksum();
    builder.append(&header, &data[..]).unwrap();
    let tar_bytes = builder.into_inner().unwrap();
    let compressed = lxe::payload::zstd_compress(&tar_bytes, 22).unwrap();
    let entries = lxe::payload::unpack_payload(&compressed).unwrap();
    assert_eq!(entries.len(), 1);
    assert_eq!(entries[0].0, b"app/run".to_vec());
    assert_eq!(entries[0].1, data.to_vec());

    // an archive with an escaping path is refused by the same pipeline
    let mut bad = tar::Builder::new(Vec::new());
    let mut h2 = tar::Header::new_gnu();
    h2.set_path("ok").unwrap();
    h2.set_size(1);
    h2.set_cksum();
    bad.append(&h2, &b"x"[..]).unwrap();
    let mut h3 = tar::Header::new_gnu();
    h3.set_path("placeholder").unwrap();
    h3.set_size(1);
    // the writer itself refuses `..`, so plant the escaping name directly
    // in the raw name field before sealing the checksum
    {
        let raw = h3.as_mut_bytes();
        for b in raw[0..100].iter_mut() {
            *b = 0;
        }
        raw[0..4].copy_from_slice(b"../x");
    }
    h3.set_cksum();
    bad.append(&h3, &b"y"[..]).unwrap();
    let bad_tar = bad.into_inner().unwrap();
    let bad_z = lxe::payload::zstd_compress(&bad_tar, 3).unwrap();
    assert_eq!(lxe::payload::unpack_payload(&bad_z), Err(LxeError::ExtractionFailed));
}

#[test]
fn test_extract_string_value() {
    assert_eq!(
        extract_string_value(&b"name=\"myapp\"".to_vec()),
        Some(b"myapp".to_vec())
    );
    assert_eq!(
        extract_string_value(&b"name='myapp'".to_vec()),
        Some(b"myapp".to_vec())
    );
    assert_eq!(
        extract_string_value(&b"name = \"myapp\",".to_vec()),
        Some(b"myapp".to_vec())
    );
    assert_eq!(
        extract_string_value(&b"version = 1.0.0,".to_vec()),
        Some(b"1.0.0".to_vec())
    );
    assert_eq!(extract_string_value(&b"name = func()".to_vec()), None);
    assert_eq!(extract_string_value(&b"no assignment here".to_vec()), None);
}
