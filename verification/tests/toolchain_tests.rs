use gobol::cranelift::host_target_string;
use gobol::table::Table;
use gobol::toolchain::{
    cc_discover, detect_for_target, toolchain_from_discovery, toolchain_missing_error, CcTool, ToolchainEnv, ToolchainKind,
};

#[test]
fn non_windows_target_needs_no_toolchain() {
    // Unix host triple: no bootstrapping required.
    assert!(detect_for_target("x86_64-unknown-linux-gnu").unwrap().is_none());
}

#[test]
fn winsock_lib_is_ws2_32_for_both_kinds() {
    // Both toolchains use the same base name; only the formatting differs.
    assert_eq!(
        ToolchainEnv { kind: ToolchainKind::Msvc, env: Table::new(), winsock_lib: "ws2_32".to_string() }.winsock_lib,
        "ws2_32"
    );
    assert_eq!(
        ToolchainEnv { kind: ToolchainKind::MinGw, env: Table::new(), winsock_lib: "ws2_32".to_string() }.winsock_lib,
        "ws2_32"
    );
}

#[test]
fn cc_discover_finds_host_compiler() {
    let host = host_target_string();
    let tool = cc_discover(&host).expect("cc_discover must not error for host");
    assert!(tool.is_some(), "cc should find a compiler for {host}");
    let t = tool.unwrap();
    assert!(!t.compiler.is_empty());
}

#[test]
fn cc_discover_unknown_target_is_none_not_err() {
    // A bogus target yields Ok(None), not an Err.
    assert!(cc_discover("totally-bogus-target-triple").is_ok());
}

#[test]
fn windows_target_without_compiler_is_an_error() {
    let r = toolchain_from_discovery("x86_64-pc-windows-gnu", None);
    assert_eq!(r.err(), Some(toolchain_missing_error("x86_64-pc-windows-gnu")));
    assert!(toolchain_missing_error("t").starts_with("No Windows C/C++ toolchain found for target 't'.\n"));
    assert!(toolchain_missing_error("t").ends_with("already has the\nenvironment set up."));
}

#[test]
fn windows_toolchain_takes_the_compiler_environment() {
    let tool = CcTool {
        compiler: "cl.exe".to_string(),
        is_msvc: true,
        env: vec![
            ("PATH".to_string(), "a".to_string()),
            ("LIB".to_string(), "b".to_string()),
            ("PATH".to_string(), "c".to_string()),
        ],
    };
    let t = toolchain_from_discovery("x86_64-pc-windows-msvc", Some(tool)).unwrap().unwrap();
    assert_eq!(t.kind, ToolchainKind::Msvc);
    assert_eq!(t.winsock_lib, "ws2_32");
    assert_eq!(t.env.get("PATH").map(|s| s.as_str()), Some("c"));
    assert_eq!(t.env.get("LIB").map(|s| s.as_str()), Some("b"));
    assert!(!t.env.contains_key("INCLUDE"));
    let gnu = CcTool { compiler: "gcc".to_string(), is_msvc: false, env: vec![] };
    let g = toolchain_from_discovery("x86_64-pc-windows-gnu", Some(gnu)).unwrap().unwrap();
    assert_eq!(g.kind, ToolchainKind::MinGw);
}

#[test]
fn non_windows_discovery_is_ignored() {
    let tool = CcTool { compiler: "cc".to_string(), is_msvc: false, env: vec![] };
    assert!(toolchain_from_discovery("aarch64-unknown-none", Some(tool)).unwrap().is_none());
}
