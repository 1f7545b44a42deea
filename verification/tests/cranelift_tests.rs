use gobol::cranelift::{
    builtin_runtime, func_returns_void, func_symbol, linker_symbol, struct_intrinsic_runtime, detect_linker, ensure_exe_extension, linker_not_found_error, linker_plan, msvc_toolchain_missing_error,
    rust_not_installed_error, target_is_bare_metal, target_is_msvc, target_is_windows, LinkOptions, LinkerKind, LinkerProbe,
    TypeResolver, VariadicStub,
};
use gobol::environment::DataType;
use gobol::ir::{IRExpr, IRField, IRStruct, LitValue};

fn probe_names(target: &str) -> Vec<(u8, String)> {
    linker_plan(target)
        .probes
        .iter()
        .map(|p| match p {
            LinkerProbe::OnPath(s) => (0, s.clone()),
            LinkerProbe::InSysrootBin(s) => (1, s.clone()),
            LinkerProbe::InCcEnvPath(s) => (2, s.clone()),
        })
        .collect()
}

#[test]
fn target_triples_are_classified() {
    assert!(target_is_windows("x86_64-pc-windows-gnu"));
    assert!(!target_is_msvc("x86_64-pc-windows-gnu"));
    assert!(target_is_msvc("x86_64-pc-windows-msvc"));
    assert!(!target_is_windows("x86_64-unknown-linux-gnu"));
    assert!(target_is_bare_metal("aarch64-unknown-none"));
    assert!(target_is_bare_metal("thumbv7em-none"));
    assert!(target_is_bare_metal("riscv64gc-unknown-none-elf"));
    assert!(!target_is_bare_metal("x86_64-unknown-linux-gnu"));
}

#[test]
fn exe_extension_only_on_windows() {
    assert_eq!(ensure_exe_extension("x86_64-unknown-linux-gnu", "app"), "app");
    assert_eq!(ensure_exe_extension("x86_64-pc-windows-msvc", "app"), "app.exe");
    assert_eq!(ensure_exe_extension("x86_64-pc-windows-msvc", "APP.EXE"), "APP.EXE");
    let once = ensure_exe_extension("x86_64-pc-windows-gnu", "tool");
    assert_eq!(ensure_exe_extension("x86_64-pc-windows-gnu", &once), once);
}

#[test]
fn builtin_calls_map_to_runtime_functions() {
    assert_eq!(builtin_runtime("print"), Some("gobol_print"));
    assert_eq!(builtin_runtime("builtins::gobol_println"), Some("gobol_println"));
    assert_eq!(builtin_runtime("std::io::_eprint"), Some("gobol_eprint"));
    assert_eq!(builtin_runtime("math::pow"), Some("gobol_math_pow"));
    assert_eq!(builtin_runtime("exists"), Some("gobol_fs_exists"));
    assert_eq!(builtin_runtime("gobol_chan_recv"), Some("gobol_chan_recv"));
    assert_eq!(builtin_runtime("printf"), None);
}

#[test]
fn linker_plans_per_target() {
    let bare = linker_plan("aarch64-unknown-none");
    assert_eq!(bare.kind, LinkerKind::BareLd);
    assert!(!bare.needs_sysroot);
    assert_eq!(probe_names("aarch64-unknown-none"), vec![(0, "aarch64-linux-gnu-ld".to_string()), (0, "ld".to_string())]);
    assert_eq!(linker_plan("x86_64-pc-windows-msvc").kind, LinkerKind::MsvcLink);
    assert_eq!(
        probe_names("x86_64-pc-windows-msvc"),
        vec![(2, "link.exe".to_string()), (1, "lld-link.exe".to_string()), (0, "link.exe".to_string())]
    );
    assert_eq!(probe_names("x86_64-pc-windows-gnu"), vec![(1, "gcc.exe".to_string()), (0, "gcc.exe".to_string())]);
    let unix = linker_plan("x86_64-unknown-linux-gnu");
    assert_eq!(unix.kind, LinkerKind::CcDriver);
    assert!(unix.needs_sysroot);
    assert_eq!(probe_names("x86_64-unknown-linux-gnu"), vec![(0, "cc".to_string()), (0, "gcc".to_string())]);
}

#[test]
fn detect_linker_takes_the_first_found() {
    let found = vec![None, Some("/usr/bin/gcc".to_string())];
    assert_eq!(
        detect_linker("x86_64-unknown-linux-gnu", "/rust/bin", &found),
        Ok(("/usr/bin/gcc".to_string(), LinkerKind::CcDriver))
    );
    let both = vec![Some("/a/cc".to_string()), Some("/b/gcc".to_string())];
    assert_eq!(
        detect_linker("x86_64-unknown-linux-gnu", "/rust/bin", &both),
        Ok(("/a/cc".to_string(), LinkerKind::CcDriver))
    );
    let none: Vec<Option<String>> = vec![None, None];
    assert_eq!(
        detect_linker("x86_64-pc-windows-gnu", "/rust/bin", &none),
        Err("linker not found for GNU target 'x86_64-pc-windows-gnu': no gcc.exe in /rust/bin or on PATH".to_string())
    );
}

#[test]
fn linker_errors_name_the_target() {
    assert_eq!(
        linker_not_found_error("aarch64-unknown-none", ""),
        "linker not found for bare-metal target 'aarch64-unknown-none': no `ld` or `aarch64-linux-gnu-ld` on PATH"
    );
    assert_eq!(
        linker_not_found_error("x86_64-unknown-linux-gnu", "/x"),
        "linker not found for target 'x86_64-unknown-linux-gnu': neither cc nor gcc on PATH"
    );
    assert!(linker_not_found_error("x86_64-pc-windows-msvc", "").starts_with(
        "linker not found for MSVC target 'x86_64-pc-windows-msvc': the `cc` crate could not\nlocate the VS toolchain"
    ));
    assert!(rust_not_installed_error().starts_with("linker not found\nRust toolchain not found."));
    assert!(rust_not_installed_error().ends_with("rustup default stable-gnu"));
    assert!(msvc_toolchain_missing_error().starts_with("MSVC C compiler not found."));
}

#[test]
fn host_link_options() {
    let o = LinkOptions::host("std/runtime.c".to_string(), vec!["m".to_string()]);
    assert_eq!(o.runtime_c_path, Some("std/runtime.c".to_string()));
    assert_eq!(o.link_libs, vec!["m".to_string()]);
    assert!(o.link_script.is_none() && o.entry_point.is_none());
    assert!(!o.target.is_empty());
}

#[test]
fn variadic_stub_source() {
    let stub = VariadicStub {
        func_name: "io::printf".to_string(),
        arity: 2,
        param_types: vec![DataType::Str, DataType::Float],
        return_type: DataType::Int,
    };
    assert_eq!(stub.symbol_name(), "__gobol_va_io_printf_2");
    assert_eq!(
        stub.c_source(),
        "long __gobol_va_io_printf_2(long a0, double a1) { return io::printf((const char*)a0, a1); }\n"
    );
    let none = VariadicStub { func_name: "f".to_string(), arity: 0, param_types: vec![], return_type: DataType::None_ };
    assert_eq!(none.c_source(), "void __gobol_va_f_0(void) { f(); }\n");
}

#[test]
fn type_resolver_layout() {
    let mut r = TypeResolver::new();
    let point = IRStruct {
        name: "Point".to_string(),
        generic_params: vec![],
        fields: vec![
            IRField { name: "x".to_string(), ty: DataType::Int },
            IRField { name: "y".to_string(), ty: DataType::Float },
        ],
        attributes: vec!["no_gc".to_string()],
    };
    r.register_structs(&[point]);
    assert!(r.has_struct("Point"));
    assert!(r.is_no_gc("Point"));
    assert_eq!(r.struct_size("Point"), 16);
    assert_eq!(r.field_offset("Point", "y"), Some(8));
    assert_eq!(r.field_offset("Point", "z"), None);
    assert_eq!(r.field_type("Point", "y"), DataType::Float);
    r.declare_var("p", DataType::Struct("Point".to_string()));
    assert_eq!(r.var_type("p"), DataType::Struct("Point".to_string()));
    r.reset_vars();
    assert_eq!(r.var_type("p"), DataType::Int);
    r.register_function("make", DataType::Str);
    assert_eq!(r.func_return_type("make"), DataType::Str);
    let s = IRExpr::Literal(LitValue::Str("hi".to_string()));
    assert!(r.contains_str(&s));
    assert_eq!(r.infer_type(&s), DataType::Str);
    assert_eq!(r.infer_type(&IRExpr::Literal(LitValue::Int(3))), DataType::Int);
}

#[test]
fn function_symbols_are_mangled() {
    assert_eq!(func_symbol("io::print.v2", 3), "gbl_io_print_v2_3");
    assert_eq!(func_symbol("a-b c\u{e9}", 0), "gbl_abc_0");
    assert_eq!(func_symbol("", 12), "gbl__12");
}

#[test]
fn struct_intrinsics_and_void_runtime_functions() {
    assert_eq!(struct_intrinsic_runtime("File", "read_all"), Some("gobol_fs_read_all"));
    assert_eq!(struct_intrinsic_runtime("TcpListener", "accept"), Some("gobol_tcp_accept"));
    assert_eq!(struct_intrinsic_runtime("TcpListener", "send"), None);
    assert_eq!(struct_intrinsic_runtime("Vec", "push"), None);
    assert!(func_returns_void("gobol_println"));
    assert!(func_returns_void("gobol_chan_destroy"));
    assert!(!func_returns_void("gobol_read"));
}

#[test]
fn linker_symbols_of_extern_and_compiled_functions() {
    let attrs = |v: &[&str]| v.iter().map(|s| s.to_string()).collect::<Vec<String>>();
    assert_eq!(linker_symbol("builtins::gobol_print", &attrs(&["extern"]), 1), "gobol_print");
    assert_eq!(linker_symbol("io::printf", &attrs(&["extern", "extern:my_printf"]), 2), "my_printf");
    assert_eq!(linker_symbol("Vec::new", &attrs(&[]), 2), "gbl_Vec_new_2");
    assert_eq!(linker_symbol("f", &attrs(&["extern:g"]), 0), "gbl_f_0");
}
