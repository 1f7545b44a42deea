use gobol::cranelift::{LinkOptions, VariadicStub};
use gobol::environment::DataType;
use gobol::linking::{
    bare_link_failure_error, bare_metal_args, cc_driver_args, exit_code_text, invoke_failure_error, missing_object_error,
    missing_output_error, msvc_compile_args, msvc_discovery_error, msvc_include_dirs, msvc_lib_env_dirs, msvc_link_args, not_msvc_error,
    object_path, runtime_compiler_failure_error, runtime_object_path, step_failure_error, stubs_compiler_failure_error,
    stubs_file_source, stubs_object_path, stubs_source_path,
};

fn strings(v: &[&str]) -> Vec<String> {
    v.iter().map(|s| s.to_string()).collect()
}

fn options(target: &str, runtime: Option<&str>, libs: &[&str]) -> LinkOptions {
    LinkOptions {
        target: target.to_string(),
        runtime_c_path: runtime.map(|r| r.to_string()),
        link_libs: strings(libs),
        link_script: None,
        entry_point: None,
    }
}

#[test]
fn cc_driver_links_runtime_stubs_and_libraries() {
    let opts = options("x86_64-unknown-linux-gnu", Some("std/runtime.c"), &["ssl"]);
    assert_eq!(
        cc_driver_args("prog.o", &opts, "prog", true, "prog.va.c"),
        strings(&["prog.o", "std/runtime.c", "prog.va.c", "-o", "prog", "-lssl", "-lm", "-lpthread"])
    );
}

#[test]
fn cc_driver_on_windows_has_no_pthread() {
    let opts = options("x86_64-pc-windows-gnu", None, &[]);
    assert_eq!(cc_driver_args("prog.o", &opts, "prog.exe", false, "prog.va.c"), strings(&["prog.o", "-o", "prog.exe", "-lm"]));
}

#[test]
fn bare_metal_link_uses_script_and_entry() {
    let mut opts = options("aarch64-unknown-none", None, &["k"]);
    opts.link_script = Some("link.ld".to_string());
    opts.entry_point = Some("_start".to_string());
    assert_eq!(
        bare_metal_args("kernel.o", &opts, "kernel.elf"),
        strings(&["-nostdlib", "-static", "-o", "kernel.elf", "-T", "link.ld", "-e", "_start", "-lk", "kernel.o"])
    );
    opts.entry_point = Some("main".to_string());
    opts.link_script = None;
    assert_eq!(
        bare_metal_args("kernel.o", &opts, "kernel.elf"),
        strings(&["-nostdlib", "-static", "-o", "kernel.elf", "-lk", "kernel.o"])
    );
}

#[test]
fn msvc_compile_and_link_lines() {
    assert_eq!(
        msvc_compile_args(&strings(&["C:\\g\\std", "C:\\g"]), "app.exe.runtime.obj", "C:\\g\\std\\runtime.c"),
        strings(&["/c", "/nologo", "/IC:\\g\\std", "/IC:\\g", "/Foapp.exe.runtime.obj", "C:\\g\\std\\runtime.c"])
    );
    let mut opts = options("x86_64-pc-windows-msvc", Some("runtime.c"), &["ws2_32"]);
    opts.entry_point = Some("_start".to_string());
    assert_eq!(
        msvc_link_args("app.obj", &strings(&["app.exe.runtime.obj"]), &opts, "app.exe", &strings(&["C:\\lib"])),
        strings(&[
            "/NOLOGO",
            "/OUT:app.exe",
            "app.obj",
            "app.exe.runtime.obj",
            "/ENTRY:_start",
            "/SUBSYSTEM:CONSOLE",
            "ws2_32.lib",
            "/LIBPATH:C:\\lib",
        ])
    );
}

#[test]
fn lib_variables_name_library_directories() {
    let env = vec![
        ("PATH".to_string(), "C:\\bin".to_string()),
        ("Lib".to_string(), " C:\\a ; ;C:\\b;".to_string()),
        ("LIBPATH".to_string(), "C:\\x".to_string()),
        ("LIB".to_string(), "D:\\lib".to_string()),
    ];
    assert_eq!(msvc_lib_env_dirs(&env), strings(&["C:\\a", "C:\\b", "D:\\lib"]));
    assert!(msvc_lib_env_dirs(&vec![]).is_empty());
}

#[test]
fn intermediate_file_names() {
    assert_eq!(object_path("x86_64-pc-windows-msvc", "app"), "app.obj");
    assert_eq!(object_path("x86_64-unknown-linux-gnu", "app"), "app.o");
    assert_eq!(stubs_source_path("app"), "app.va.c");
    assert_eq!(runtime_object_path("app.exe"), "app.exe.runtime.obj");
    assert_eq!(stubs_object_path("app.exe"), "app.exe.va.obj");
}

#[test]
fn stubs_file_starts_with_headers() {
    let stub = VariadicStub {
        func_name: "printf".to_string(),
        arity: 2,
        param_types: vec![DataType::Str, DataType::Int],
        return_type: DataType::Int,
    };
    let text = stubs_file_source(&vec![stub]);
    assert_eq!(
        text,
        "/* Auto-generated variadic stubs for gobol extern \"C\" calls. */\n#include <stdio.h>\n#include <stdlib.h>\n#include <string.h>\nlong __gobol_va_printf_2(long a0, long a1) { return printf((const char*)a0, a1); }\n"
    );
}

#[test]
fn failure_messages() {
    assert_eq!(exit_code_text(Some(1181)), "Some(1181)");
    assert_eq!(exit_code_text(Some(-1)), "Some(-1)");
    assert_eq!(exit_code_text(None), "None");
    assert_eq!(
        step_failure_error("Linking", "link.exe", Some(1120), "out", "err"),
        "Linking failed with exit code Some(1120)\n--- link.exe stdout ---\nout\n--- link.exe stderr ---\nerr"
    );
    assert_eq!(
        bare_link_failure_error(None, "o", "e"),
        "Linking failed with exit code None\n\nstdout:\no\n\nstderr:\ne"
    );
    assert_eq!(
        missing_output_error("Runtime compilation", "a.obj", "o", "e"),
        "Runtime compilation appeared to succeed but 'a.obj' was not produced.\ncl.exe stdout: o\ncl.exe stderr: e"
    );
    assert_eq!(
        not_msvc_error("x86_64-pc-windows-gnu"),
        "target 'x86_64-pc-windows-gnu' is not MSVC-family but the MSVC link path was selected"
    );
    assert_eq!(missing_object_error("a.obj"), "link_msvc: main object file 'a.obj' does not exist before linking");
    assert_eq!(invoke_failure_error("linker", "cc", "not found"), "Failed to invoke linker 'cc': not found");
    assert_eq!(
        runtime_compiler_failure_error("cl.exe", "denied"),
        "Failed to compile runtime with 'cl.exe': denied\n(Is cl.exe on PATH? The cc-discovered env should include it.)"
    );
    assert_eq!(stubs_compiler_failure_error("cl.exe", "denied"), "Failed to compile stubs with 'cl.exe': denied");
    assert_eq!(msvc_discovery_error("boom"), "MSVC toolchain discovery failed: boom");
}

#[test]
fn msvc_includes_the_runtime_directory_and_its_parent() {
    assert_eq!(msvc_include_dirs(Some("rt/src/runtime.c")), vec!["rt/src".to_string(), "rt".to_string()]);
    assert_eq!(msvc_include_dirs(Some("runtime.c")), vec!["".to_string()]);
    assert!(msvc_include_dirs(None).is_empty());
}
