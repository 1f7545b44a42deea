//! Discovery of the Windows C/C++ toolchain that the native back end needs
//! to link, delegated to the `cc` crate. Every Windows toolchain links the
//! runtime's Winsock dependency as `ws2_32`; other targets need no setup.
use vstd::prelude::*;
use vstd::string::StringSliceAdditionalSpecFns;
use crate::cranelift::{host_target_string, target_is_windows, windows_triple};
use crate::table::{Table, insertions_map};
use crate::text::owned;

verus! {

broadcast use vstd::string::group_string_axioms;

/// The kind of Windows C/C++ toolchain that was found.
#[derive(Debug, Clone, Copy, PartialEq, Eq, Structural)]
pub enum ToolchainKind {
    /// Microsoft Visual C++: `cl.exe` and `link.exe`.
    Msvc,
    /// MinGW-w64: `gcc.exe` as compiler and linker driver.
    MinGw,
}

/// A toolchain that was found: the environment to run the compiler with,
/// and the Winsock library's base name to link.
pub struct ToolchainEnv {
    pub kind: ToolchainKind,
    /// Environment variables (`PATH`, `INCLUDE`, `LIB`, ...) to set for the
    /// compiler; a later variable of the same name replaces an earlier one.
    pub env: Table<String>,
    /// The Winsock library's base name, `ws2_32`.
    pub winsock_lib: String,
}

/// A C/C++ compiler found by the `cc` crate: its path, whether it is of the
/// MSVC family, and the environment it must run with, as text.
pub struct CcTool {
    pub compiler: String,
    pub is_msvc: bool,
    pub env: Vec<(String, String)>,
}

/// Asks the `cc` crate for the C compiler of `target` when building on
/// `host`: `cc::Build::new()` with that target and host, optimisation level
/// 0, and Cargo's metadata and warnings switched off, then
/// `Build::try_get_compiler`. The tool's `path()`, `is_like_msvc()` and
/// `env()` come back as text (paths and variables converted lossily);
/// an error from `cc` comes back as `None`. No output directory is set: for
/// its flag probes `cc` then uses the system's temporary directory. What is
/// found depends on the machine, its files and its environment variables
/// (`CC`, `CFLAGS`, the Visual Studio installation, ...), so nothing is
/// stated of the result.
#[verifier::external_body]
fn discover_c_compiler(target: &str, host: &str) -> Option<CcTool> {
    let mut build = cc::Build::new();
    build.target(target).host(host).opt_level(0).cargo_metadata(false).cargo_warnings(false);
    match build.try_get_compiler() {
        Ok(tool) => Some(CcTool {
            compiler: tool.path().to_string_lossy().into_owned(),
            is_msvc: tool.is_like_msvc(),
            env: tool.env().iter().map(
                |(k, v)| (k.to_string_lossy().into_owned(), v.to_string_lossy().into_owned()),
            ).collect(),
        }),
        Err(_) => None,
    }
}

/// Finds the C/C++ compiler for `target`, building on the host, through the
/// `cc` crate. Never an error: a compiler that cannot be found is `None`,
/// for the caller to turn into a message.
pub fn cc_discover(target: &str) -> (r: Result<Option<CcTool>, String>)
    ensures
        r is Ok,
{
    let host = host_target_string();
    Ok(discover_c_compiler(target, host.as_str()))
}

/// The error, with install instructions, when no toolchain was found.
pub open spec fn toolchain_missing_text(target: Seq<char>) -> Seq<char> {
    "No Windows C/C++ toolchain found for target '"@ + target
        + "'.\nThe Gobol backend needs a C compiler + linker to produce the final\nexecutable, and the `cc` crate could not locate one. Install one of:\n  \u{2022} Visual Studio 2019/2022 with the 'Desktop development with C++'\nworkload (provides MSVC cl.exe / link.exe), or\n  \u{2022} MinGW-w64 (https://www.mingw-w64.org/) with gcc.exe on PATH.\nAlternatively set CC=<compiler> for the target and re-run `grape run`.\nTip: for MSVC, a 'Developer Command Prompt for VS' already has the\nenvironment set up."@
}

/// The error, with install instructions, when no toolchain was found.
pub fn toolchain_missing_error(target: &str) -> (s: String)
    ensures
        s@ == toolchain_missing_text(target@),
{
    let mut s = owned("No Windows C/C++ toolchain found for target '");
    s.append(target);
    s.append(
        "'.\nThe Gobol backend needs a C compiler + linker to produce the final\nexecutable, and the `cc` crate could not locate one. Install one of:\n  \u{2022} Visual Studio 2019/2022 with the 'Desktop development with C++'\nworkload (provides MSVC cl.exe / link.exe), or\n  \u{2022} MinGW-w64 (https://www.mingw-w64.org/) with gcc.exe on PATH.\nAlternatively set CC=<compiler> for the target and re-run `grape run`.\nTip: for MSVC, a 'Developer Command Prompt for VS' already has the\nenvironment set up.",
    );
    s
}

/// The toolchain set up from what discovery found for `target`: none is
/// needed for a non-Windows target; for a Windows target, a missing compiler
/// is the install-instructions error, and a compiler found gives its kind,
/// its environment (a later variable replacing an earlier one of the same
/// name) and `ws2_32`.
pub fn toolchain_from_discovery(target: &str, discovered: Option<CcTool>) -> (r: Result<Option<ToolchainEnv>, String>)
    ensures
        !windows_triple(target.spec_bytes()) ==> r matches Ok(None),
        windows_triple(target.spec_bytes()) ==> match discovered {
            None => r matches Err(e) && e@ == toolchain_missing_text(target@),
            Some(tool) => r matches Ok(Some(t)) && t.kind == (if tool.is_msvc {
                ToolchainKind::Msvc
            } else {
                ToolchainKind::MinGw
            }) && t.env@ == insertions_map(tool.env@) && t.winsock_lib@ == "ws2_32"@,
        },
{
    if !target_is_windows(target) {
        return Ok(None);
    }
    let tool = match discovered {
        Some(t) => t,
        None => {
            return Err(toolchain_missing_error(target));
        },
    };
    let mut env: Table<String> = Table::new();
    let mut i: usize = 0;
    while i < tool.env.len()
        invariant
            i <= tool.env@.len(),
            env@ == insertions_map(tool.env@.take(i as int)),
        decreases tool.env@.len() - i,
    {
        let key = tool.env[i].0.clone();
        let value = tool.env[i].1.clone();
        env.insert(key, value);
        assert(tool.env@.take(i + 1).drop_last() =~= tool.env@.take(i as int));
        i = i + 1;
    }
    assert(tool.env@.take(i as int) =~= tool.env@);
    let kind = if tool.is_msvc {
        ToolchainKind::Msvc
    } else {
        ToolchainKind::MinGw
    };
    Ok(Some(ToolchainEnv { kind, env, winsock_lib: owned("ws2_32") }))
}

/// Detects the C/C++ toolchain for a target. A non-Windows target needs
/// none; for a Windows target the `cc` crate is asked, and the outcome is
/// what `toolchain_from_discovery` makes of its answer.
pub fn detect_for_target(target: &str) -> (r: Result<Option<ToolchainEnv>, String>)
    ensures
        !windows_triple(target.spec_bytes()) ==> r matches Ok(None),
        windows_triple(target.spec_bytes()) ==> match r {
            Ok(Some(t)) => t.winsock_lib@ == "ws2_32"@,
            Ok(None) => false,
            Err(e) => e@ == toolchain_missing_text(target@),
        },
{
    if !target_is_windows(target) {
        return Ok(None);
    }
    let discovered = match cc_discover(target) {
        Ok(d) => d,
        Err(e) => {
            return Err(e);
        },
    };
    toolchain_from_discovery(target, discovered)
}

} // verus!
