use dscode::cli::{ensure, get_status, is_generated_shim, remove, PathChange};
use dscode::cores::list;
use dscode::lifecycle::{install_dependencies, runtime_ready};
use dscode::runtime::{
    get_bundle_dir, get_dsh_data_path, get_dsh_service_url, get_dsh_version,
    mirror_download_url, runtime_info, service_log_file_name, DataDir,
};

#[test]
fn mirror_url_passes_the_asset_url_through() {
    assert_eq!(
        mirror_download_url("https://github.com/o/r/releases/download/v1/a.zip"),
        "https://ghfast.top/https://github.com/o/r/releases/download/v1/a.zip"
    );
    assert_eq!(mirror_download_url(""), "https://ghfast.top/");
}

#[test]
fn service_url_uses_the_port() {
    assert_eq!(get_dsh_service_url(3080), "http://127.0.0.1:3080");
    assert_eq!(get_dsh_service_url(3081), "http://127.0.0.1:3081");
    assert_eq!(get_dsh_service_url(0), "http://127.0.0.1:0");
    assert_eq!(get_dsh_service_url(65535), "http://127.0.0.1:65535");
}

#[test]
fn dsh_version_comes_from_the_manifest() {
    assert_eq!(
        get_dsh_version(Some(r#"{"name":"@deepseek-ai/dsh","version":"1.2.3"}"#)),
        Some(String::from("1.2.3"))
    );
    assert_eq!(get_dsh_version(Some(r#"{"version":3}"#)), None);
    assert_eq!(get_dsh_version(Some(r#"["version"]"#)), None);
    assert_eq!(get_dsh_version(Some("not json")), None);
    assert_eq!(get_dsh_version(Some("{}")), None);
    assert_eq!(get_dsh_version(None), None);
}

#[test]
fn runtime_info_carries_the_facts() {
    let info = runtime_info(
        String::from("0.3.0"),
        Some(String::from("1.2.3")),
        3080,
        String::from("/home/u/.dsh"),
        String::from("/data/logs/dsh-web.log"),
        String::from("windows"),
        String::from("x86_64"),
    );
    assert_eq!(info.app_version, "0.3.0");
    assert_eq!(info.dsh_version, Some(String::from("1.2.3")));
    assert_eq!(info.node_version, "24.11.1");
    assert_eq!(info.service_url, "http://127.0.0.1:3080");
    assert_eq!(info.data_dir, "/home/u/.dsh");
    assert_eq!(info.log_path, "/data/logs/dsh-web.log");
    assert_eq!(info.platform, "windows");
    assert_eq!(info.arch, "x86_64");
}

#[test]
fn data_dir_prefers_dsh_home() {
    match get_dsh_data_path(Some(String::from("D:\\dsh")), Some(String::from("C:\\Users\\u")), false) {
        DataDir::Explicit(p) => assert_eq!(p, "D:\\dsh"),
        _ => panic!("DSH_HOME must win"),
    }
}

#[test]
fn empty_dsh_home_is_ignored() {
    match get_dsh_data_path(Some(String::new()), Some(String::from("/home/u")), false) {
        DataDir::UnderHome { home, name } => {
            assert_eq!(home, "/home/u");
            assert_eq!(name, ".dsh");
        }
        _ => panic!("the home directory must be used"),
    }
}

#[test]
fn debug_builds_use_their_own_data_dir() {
    match get_dsh_data_path(None, Some(String::from("/home/u")), true) {
        DataDir::UnderHome { name, .. } => assert_eq!(name, ".dsh.dev"),
        _ => panic!("the home directory must be used"),
    }
    match get_dsh_data_path(None, None, true) {
        DataDir::Relative(name) => assert_eq!(name, ".dsh.dev"),
        _ => panic!("no home directory is known"),
    }
    match get_dsh_data_path(None, None, false) {
        DataDir::Relative(name) => assert_eq!(name, ".dsh"),
        _ => panic!("no home directory is known"),
    }
}

#[test]
fn log_file_names() {
    assert_eq!(service_log_file_name(false), "dsh-web.log");
    assert_eq!(service_log_file_name(true), "dsh-web.dev.log");
}

#[test]
fn plain_bundle_dir_is_unchanged() {
    assert_eq!(get_bundle_dir("/opt/dscode/resources/bundle"), "/opt/dscode/resources/bundle");
}

#[test]
fn cli_ensure_needs_the_bundled_script() {
    match ensure(false, false) {
        Err(e) => assert_eq!(e, "BUNDLED_CLI_MISSING: reinstall the full desktop installer"),
        Ok(_) => panic!("a missing script is an error"),
    }
    assert!(matches!(ensure(false, true), Err(_)));
    assert!(matches!(ensure(true, false), Ok(PathChange::Register)));
    assert!(matches!(ensure(true, true), Ok(PathChange::Keep)));
}

#[test]
fn cli_remove_only_unregisters_in_release_builds() {
    assert!(matches!(remove(false), PathChange::Unregister));
    assert!(matches!(remove(true), PathChange::Keep));
}

#[test]
fn cli_status_never_reports_a_user_dsh() {
    let s = get_status(true, true, false, String::from("C:\\bin"), String::from("C:\\bin\\dsh.cmd"));
    assert!(s.enabled);
    assert!(s.shim_exists);
    assert!(!s.path_registered);
    assert!(!s.user_dsh_preserved);
    assert_eq!(s.bin_dir, "C:\\bin");
    assert_eq!(s.shim_path, "C:\\bin\\dsh.cmd");
}

#[test]
fn generated_shims_are_recognised() {
    assert!(is_generated_shim(Some("@echo off\r\nrem DeepSeek Harness Desktop\r\n")));
    assert!(is_generated_shim(Some("DeepSeek Harness Desktop")));
    assert!(!is_generated_shim(Some("@echo off\r\nrem DeepSeek Harness\r\n")));
    assert!(!is_generated_shim(Some("")));
    assert!(!is_generated_shim(None));
}

#[test]
fn cores_list_holds_the_bundled_core() {
    let cores = list(String::from("/b/dsh/dsh.js"), String::from("/b/dsh"), None, false);
    assert_eq!(cores.len(), 1);
    assert_eq!(cores[0].id, "app");
    assert_eq!(cores[0].source, "app");
    assert_eq!(cores[0].version, "");
    assert_eq!(cores[0].path, "/b/dsh/dsh.js");
    assert_eq!(cores[0].dir, "/b/dsh");
    assert!(!cores[0].present);
    assert!(cores[0].active);
    let cores = list(String::from("p"), String::from("d"), Some(String::from("1.0.0")), true);
    assert_eq!(cores[0].version, "1.0.0");
    assert!(cores[0].present);
}

#[test]
fn runtime_ready_needs_all_three() {
    assert!(runtime_ready(true, true, true));
    assert!(!runtime_ready(false, true, true));
    assert!(!runtime_ready(true, false, true));
    assert!(!runtime_ready(true, true, false));
}

#[test]
fn install_dependencies_steps() {
    match install_dependencies(false, false, true) {
        Err(e) => assert!(e.starts_with("BUNDLED_RUNTIME_MISSING: ")),
        Ok(_) => panic!("a missing runtime is an error"),
    }
    match install_dependencies(true, false, true) {
        Ok(steps) => {
            assert!(steps.mark_installed);
            assert!(steps.ensure_cli);
        }
        Err(_) => panic!("a ready runtime is set up"),
    }
    match install_dependencies(true, true, false) {
        Ok(steps) => {
            assert!(!steps.mark_installed);
            assert!(!steps.ensure_cli);
        }
        Err(_) => panic!("a ready runtime is set up"),
    }
}
