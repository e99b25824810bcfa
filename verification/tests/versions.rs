use dscode::version::{
    get_active_node_version, get_bundled_node_version, is_runtime_compatible,
    is_supported_node_version, parse_node_version, NodeVersionOutput, NODE_VERSION,
};

#[test]
fn parses_node_version_output() {
    assert_eq!(parse_node_version("v22.15.0\n"), Some((22, 15, 0)));
    assert_eq!(parse_node_version("  v24.1.2  "), Some((24, 1, 2)));
    assert_eq!(parse_node_version("vv23.8.1"), Some((23, 8, 1)));
    assert_eq!(parse_node_version("22.15.0.7"), Some((22, 15, 0)));
    assert_eq!(parse_node_version("+1.2.3"), Some((1, 2, 3)));
}

#[test]
fn rejects_malformed_versions() {
    assert_eq!(parse_node_version("22"), None);
    assert_eq!(parse_node_version("22.15"), None);
    assert_eq!(parse_node_version("v22.x.0"), None);
    assert_eq!(parse_node_version("v22..0"), None);
    assert_eq!(parse_node_version(""), None);
    assert_eq!(parse_node_version("18446744073709551616.0.0"), None);
    assert_eq!(parse_node_version("18446744073709551615.0.0"), Some((u64::MAX, 0, 0)));
    assert_eq!(parse_node_version("-1.0.0"), None);
}

#[test]
fn compatibility_rule() {
    assert!(!is_supported_node_version("v22.14.9"));
    assert!(is_supported_node_version("v22.15.0"));
    assert!(!is_supported_node_version("v23.7.0"));
    assert!(!is_supported_node_version("v23.0.0"));
    assert!(is_supported_node_version("v23.8.0"));
    assert!(is_supported_node_version("v24.0.0"));
    assert!(is_supported_node_version("v30.1.0"));
    assert!(!is_supported_node_version("v21.99.0"));
    assert!(!is_supported_node_version("node"));
}

#[test]
fn bundled_version_drops_leading_v() {
    assert_eq!(get_bundled_node_version(), "24.11.1");
    assert_eq!(get_active_node_version(), get_bundled_node_version());
    assert!(is_supported_node_version(NODE_VERSION));
}

#[test]
fn runtime_compatibility_needs_binary_and_success() {
    let good = NodeVersionOutput { success: true, stdout: b"v22.15.0\r\n".to_vec() };
    assert!(is_runtime_compatible(true, Some(&good)));
    assert!(!is_runtime_compatible(false, Some(&good)));
    assert!(!is_runtime_compatible(true, None));
    let failed = NodeVersionOutput { success: false, stdout: b"v22.15.0\n".to_vec() };
    assert!(!is_runtime_compatible(true, Some(&failed)));
    let old = NodeVersionOutput { success: true, stdout: b"v20.0.0\n".to_vec() };
    assert!(!is_runtime_compatible(true, Some(&old)));
}

#[test]
fn runtime_output_is_decoded_lossily() {
    let bad = NodeVersionOutput { success: true, stdout: b"v24.0.0\xff".to_vec() };
    assert!(!is_runtime_compatible(true, Some(&bad)));
    let non_ascii = NodeVersionOutput {
        success: true,
        stdout: "\u{3000}v24.0.0\u{3000}".as_bytes().to_vec(),
    };
    assert!(is_runtime_compatible(true, Some(&non_ascii)));
}

#[test]
fn printed_versions_read_back() {
    assert_eq!(parse_node_version("\t v1.2.3.4 \u{3000}"), Some((1, 2, 3)));
    assert_eq!(parse_node_version("\n7.8.9\r\n"), Some((7, 8, 9)));
    assert_eq!(parse_node_version("v0.0.18446744073709551615"), Some((0, 0, u64::MAX)));
}
