//! How the final link is driven: the names of the intermediate files, the
//! command lines of the C compiler and of the linker for each kind of
//! toolchain, the library directories an MSVC environment names, and the
//! messages shown when a step fails.
use vstd::prelude::*;
use vstd::utf8::*;
use vstd::string::StringSliceAdditionalSpecFns;
use crate::cranelift::{LinkOptions, VariadicStub, windows_triple, msvc_triple, target_is_windows, target_is_msvc};
use crate::semantic_analyzer::{texts, path_parent, ordinary_path, parent_dir};
use crate::text::{owned, str_eq, str_chars, chars_to_string, is_white_space, char_is_white_space, int_decimal, append_int};

verus! {

broadcast use vstd::string::group_string_axioms;

// ==================== argument lists ====================

/// Each item with `prefix` before it.
pub open spec fn prefixed(items: Seq<String>, prefix: Seq<char>) -> Seq<Seq<char>> {
    items.map_values(|s: String| prefix + s@)
}

/// Each item with `suffix` after it.
pub open spec fn suffixed(items: Seq<String>, suffix: Seq<char>) -> Seq<Seq<char>> {
    items.map_values(|s: String| s@ + suffix)
}

/// An optional text as zero or one argument.
pub open spec fn opt_arg(o: Option<String>) -> Seq<Seq<char>> {
    match o {
        Some(s) => seq![s@],
        None => Seq::empty(),
    }
}

/// The entry symbol, when one is given and it is not `main`.
pub open spec fn custom_entry(opts: LinkOptions) -> Option<Seq<char>> {
    match opts.entry_point {
        Some(ep) => if ep@ != "main"@ {
            Some(ep@)
        } else {
            None
        },
        None => None,
    }
}

/// Appends one argument.
fn push_arg(args: &mut Vec<String>, s: String)
    ensures
        texts(final(args)@) == texts(old(args)@).push(s@),
{
    args.push(s);
    assert(texts(args@) =~= texts(old(args)@).push(s@));
}

/// Appends each item with `prefix` before it.
fn push_prefixed(args: &mut Vec<String>, items: &Vec<String>, prefix: &str)
    ensures
        texts(final(args)@) == texts(old(args)@) + prefixed(items@, prefix@),
{
    let mut i: usize = 0;
    while i < items.len()
        invariant
            i <= items@.len(),
            texts(args@) == texts(old(args)@) + prefixed(items@.take(i as int), prefix@),
        decreases items@.len() - i,
    {
        let mut a = owned(prefix);
        a.append(items[i].as_str());
        push_arg(args, a);
        assert(prefixed(items@.take(i + 1), prefix@) =~= prefixed(items@.take(i as int), prefix@).push(
            prefix@ + items@[i as int]@,
        ));
        i = i + 1;
        assert(texts(args@) =~= texts(old(args)@) + prefixed(items@.take(i as int), prefix@));
    }
    assert(items@.take(items@.len() as int) =~= items@);
}

/// Appends each item with `suffix` after it.
fn push_suffixed(args: &mut Vec<String>, items: &Vec<String>, suffix: &str)
    ensures
        texts(final(args)@) == texts(old(args)@) + suffixed(items@, suffix@),
{
    let mut i: usize = 0;
    while i < items.len()
        invariant
            i <= items@.len(),
            texts(args@) == texts(old(args)@) + suffixed(items@.take(i as int), suffix@),
        decreases items@.len() - i,
    {
        let mut a = items[i].clone();
        a.append(suffix);
        push_arg(args, a);
        assert(suffixed(items@.take(i + 1), suffix@) =~= suffixed(items@.take(i as int), suffix@).push(
            items@[i as int]@ + suffix@,
        ));
        i = i + 1;
        assert(texts(args@) =~= texts(old(args)@) + suffixed(items@.take(i as int), suffix@));
    }
    assert(items@.take(items@.len() as int) =~= items@);
}

/// A text with `suffix` appended.
fn with_suffix(s: &str, suffix: &str) -> (r: String)
    ensures
        r@ == s@ + suffix@,
{
    let mut r = owned(s);
    r.append(suffix);
    r
}

// ==================== file names ====================

/// The object file the code generator writes next to the output: `.obj`
/// for the MSVC ABI, `.o` otherwise.
pub open spec fn object_path_spec(target: Seq<char>, output: Seq<char>) -> Seq<char> {
    if msvc_triple(encode_utf8(target)) {
        output + ".obj"@
    } else {
        output + ".o"@
    }
}

/// The object file the code generator writes for an output path.
pub fn object_path(target: &str, output_path: &str) -> (r: String)
    ensures
        r@ == object_path_spec(target@, output_path@),
{
    if target_is_msvc(target) {
        with_suffix(output_path, ".obj")
    } else {
        with_suffix(output_path, ".o")
    }
}

/// The C file that holds the variadic stubs: `<output>.va.c`.
pub fn stubs_source_path(output_path: &str) -> (r: String)
    ensures
        r@ == output_path@ + ".va.c"@,
{
    with_suffix(output_path, ".va.c")
}

/// The object the C runtime is compiled to on MSVC: `<output>.runtime.obj`.
pub fn runtime_object_path(final_output: &str) -> (r: String)
    ensures
        r@ == final_output@ + ".runtime.obj"@,
{
    with_suffix(final_output, ".runtime.obj")
}

/// The object the variadic stubs are compiled to on MSVC: `<output>.va.obj`.
pub fn stubs_object_path(final_output: &str) -> (r: String)
    ensures
        r@ == final_output@ + ".va.obj"@,
{
    with_suffix(final_output, ".va.obj")
}

/// The head of the stubs file: a comment and the C headers that declare
/// the variadic functions the stubs call.
pub open spec fn stubs_header() -> Seq<char> {
    "/* Auto-generated variadic stubs for gobol extern \"C\" calls. */\n#include <stdio.h>\n#include <stdlib.h>\n#include <string.h>\n"@
}

/// The stubs' C sources, one after another.
pub open spec fn stubs_text(stubs: Seq<VariadicStub>) -> Seq<char>
    decreases stubs.len(),
{
    if stubs.len() == 0 {
        Seq::empty()
    } else {
        stubs_text(stubs.drop_last()) + stubs.last().c_source_spec()
    }
}

/// The stubs file: its head, then each stub's C source. Each stub's arity
/// must not exceed its number of argument types.
pub fn stubs_file_source(stubs: &Vec<VariadicStub>) -> (s: String)
    requires
        forall|i: int| 0 <= i < stubs@.len() ==> #[trigger] stubs@[i].arity <= stubs@[i].param_types@.len(),
    ensures
        s@ == stubs_header() + stubs_text(stubs@),
{
    let mut s = owned(
        "/* Auto-generated variadic stubs for gobol extern \"C\" calls. */\n#include <stdio.h>\n#include <stdlib.h>\n#include <string.h>\n",
    );
    let mut i: usize = 0;
    while i < stubs.len()
        invariant
            i <= stubs@.len(),
            forall|k: int| 0 <= k < stubs@.len() ==> #[trigger] stubs@[k].arity <= stubs@[k].param_types@.len(),
            s@ == stubs_header() + stubs_text(stubs@.take(i as int)),
        decreases stubs@.len() - i,
    {
        let one = stubs[i].c_source();
        s.append(one.as_str());
        assert(stubs@.take(i + 1).drop_last() =~= stubs@.take(i as int));
        i = i + 1;
        assert(s@ =~= stubs_header() + stubs_text(stubs@.take(i as int)));
    }
    assert(stubs@.take(stubs@.len() as int) =~= stubs@);
    s
}

// ==================== command lines ====================

/// The arguments of a C compiler driver (`cc`, `gcc`, `clang`) that links
/// the object, the C runtime and the stubs into `out`: the extra libraries,
/// `-lm`, and `-lpthread` except on Windows.
pub open spec fn cc_driver_args_spec(obj: Seq<char>, opts: LinkOptions, out: Seq<char>, stubs: Option<Seq<char>>) -> Seq<
    Seq<char>,
> {
    seq![obj] + opt_arg(opts.runtime_c_path) + (match stubs {
        Some(s) => seq![s],
        None => Seq::empty(),
    }) + seq!["-o"@, out] + prefixed(opts.link_libs@, "-l"@) + seq!["-lm"@] + (if windows_triple(
        encode_utf8(opts.target@),
    ) {
        Seq::empty()
    } else {
        seq!["-lpthread"@]
    })
}

/// The arguments of a C compiler driver linking the program (see
/// `cc_driver_args_spec`); the stubs file is passed when `has_stubs`.
pub fn cc_driver_args(obj_path: &str, opts: &LinkOptions, final_output: &str, has_stubs: bool, stubs_src_path: &str) -> (args: Vec<String>)
    ensures
        texts(args@) == cc_driver_args_spec(obj_path@, *opts, final_output@, if has_stubs {
            Some(stubs_src_path@)
        } else {
            None
        }),
{
    let mut args: Vec<String> = Vec::new();
    assert(texts(args@) =~= Seq::<Seq<char>>::empty());
    push_arg(&mut args, owned(obj_path));
    match &opts.runtime_c_path {
        Some(rt) => push_arg(&mut args, rt.clone()),
        None => {},
    }
    if has_stubs {
        push_arg(&mut args, owned(stubs_src_path));
    }
    push_arg(&mut args, owned("-o"));
    push_arg(&mut args, owned(final_output));
    push_prefixed(&mut args, &opts.link_libs, "-l");
    push_arg(&mut args, owned("-lm"));
    if !target_is_windows(opts.target.as_str()) {
        push_arg(&mut args, owned("-lpthread"));
    }
    assert(texts(args@) =~= cc_driver_args_spec(obj_path@, *opts, final_output@, if has_stubs {
        Some(stubs_src_path@)
    } else {
        None
    }));
    args
}

/// The arguments of a raw `ld` for a bare-metal target: no standard
/// library, static, the link script (`-T`), the entry symbol (`-e`) unless
/// it is `main`, the extra libraries, then the object.
pub open spec fn bare_metal_args_spec(obj: Seq<char>, opts: LinkOptions, out: Seq<char>) -> Seq<Seq<char>> {
    seq!["-nostdlib"@, "-static"@, "-o"@, out] + (match opts.link_script {
        Some(s) => seq!["-T"@, s@],
        None => Seq::empty(),
    }) + (match custom_entry(opts) {
        Some(ep) => seq!["-e"@, ep],
        None => Seq::empty(),
    }) + prefixed(opts.link_libs@, "-l"@) + seq![obj]
}

/// The arguments of `ld` linking a bare-metal program (see
/// `bare_metal_args_spec`).
pub fn bare_metal_args(obj_path: &str, opts: &LinkOptions, final_output: &str) -> (args: Vec<String>)
    ensures
        texts(args@) == bare_metal_args_spec(obj_path@, *opts, final_output@),
{
    let mut args: Vec<String> = Vec::new();
    assert(texts(args@) =~= Seq::<Seq<char>>::empty());
    push_arg(&mut args, owned("-nostdlib"));
    push_arg(&mut args, owned("-static"));
    push_arg(&mut args, owned("-o"));
    push_arg(&mut args, owned(final_output));
    match &opts.link_script {
        Some(script) => {
            push_arg(&mut args, owned("-T"));
            push_arg(&mut args, script.clone());
        },
        None => {},
    }
    match &opts.entry_point {
        Some(ep) => {
            if !str_eq(ep.as_str(), "main") {
                push_arg(&mut args, owned("-e"));
                push_arg(&mut args, ep.clone());
            }
        },
        None => {},
    }
    push_prefixed(&mut args, &opts.link_libs, "-l");
    push_arg(&mut args, owned(obj_path));
    assert(texts(args@) =~= bare_metal_args_spec(obj_path@, *opts, final_output@));
    args
}

/// The arguments of `cl.exe` (or `clang-cl.exe`) compiling one C file to an
/// object: compile only, no banner, each include directory, the object.
pub open spec fn msvc_compile_args_spec(include_dirs: Seq<String>, obj_out: Seq<char>, source: Seq<char>) -> Seq<Seq<char>> {
    seq!["/c"@, "/nologo"@] + prefixed(include_dirs, "/I"@) + seq!["/Fo"@ + obj_out, source]
}

/// The include directories of an MSVC build: the directory of the runtime
/// C file and that directory's parent, as far as they exist; none without
/// a runtime file.
pub fn msvc_include_dirs(runtime_c_path: Option<&str>) -> (r: Vec<String>)
    ensures
        runtime_c_path is None ==> r@.len() == 0,
        r@.len() <= 2,
        match runtime_c_path {
            Some(p) => ordinary_path(p@) ==> {
                &&& r@.len() >= 1
                &&& r@[0]@ == parent_dir(p@)
                &&& ordinary_path(parent_dir(p@)) ==> r@.len() == 2 && r@[1]@ == parent_dir(parent_dir(p@))
            },
            None => true,
        },
{
    let mut r: Vec<String> = Vec::new();
    match runtime_c_path {
        Some(rt) => match path_parent(rt) {
            Some(parent) => {
                let gp = path_parent(parent.as_str());
                r.push(parent);
                match gp {
                    Some(g) => {
                        r.push(g);
                    },
                    None => {},
                }
            },
            None => {},
        },
        None => {},
    }
    r
}

/// The arguments of `cl.exe` compiling `source` to `obj_out` (see
/// `msvc_compile_args_spec`).
pub fn msvc_compile_args(include_dirs: &Vec<String>, obj_out: &str, source: &str) -> (args: Vec<String>)
    ensures
        texts(args@) == msvc_compile_args_spec(include_dirs@, obj_out@, source@),
{
    let mut args: Vec<String> = Vec::new();
    assert(texts(args@) =~= Seq::<Seq<char>>::empty());
    push_arg(&mut args, owned("/c"));
    push_arg(&mut args, owned("/nologo"));
    push_prefixed(&mut args, include_dirs, "/I");
    let mut fo = owned("/Fo");
    fo.append(obj_out);
    push_arg(&mut args, fo);
    push_arg(&mut args, owned(source));
    assert(texts(args@) =~= msvc_compile_args_spec(include_dirs@, obj_out@, source@));
    args
}

/// The arguments of `link.exe`: no banner, the output, the program's
/// object and the other objects, the entry symbol unless it is `main` (with
/// the console subsystem), each extra library as `<lib>.lib`, and each
/// library directory.
pub open spec fn msvc_link_args_spec(
    obj: Seq<char>,
    extra_objs: Seq<String>,
    opts: LinkOptions,
    out: Seq<char>,
    lib_dirs: Seq<String>,
) -> Seq<Seq<char>> {
    seq!["/NOLOGO"@, "/OUT:"@ + out, obj] + texts(extra_objs) + (match custom_entry(opts) {
        Some(ep) => seq!["/ENTRY:"@ + ep, "/SUBSYSTEM:CONSOLE"@],
        None => Seq::empty(),
    }) + suffixed(opts.link_libs@, ".lib"@) + prefixed(lib_dirs, "/LIBPATH:"@)
}

/// The arguments of `link.exe` linking the program (see
/// `msvc_link_args_spec`).
pub fn msvc_link_args(
    obj_path: &str,
    extra_objs: &Vec<String>,
    opts: &LinkOptions,
    final_output: &str,
    lib_dirs: &Vec<String>,
) -> (args: Vec<String>)
    ensures
        texts(args@) == msvc_link_args_spec(obj_path@, extra_objs@, *opts, final_output@, lib_dirs@),
{
    let mut args: Vec<String> = Vec::new();
    assert(texts(args@) =~= Seq::<Seq<char>>::empty());
    push_arg(&mut args, owned("/NOLOGO"));
    let mut out = owned("/OUT:");
    out.append(final_output);
    push_arg(&mut args, out);
    push_arg(&mut args, owned(obj_path));
    let ghost before = texts(args@);
    let mut i: usize = 0;
    while i < extra_objs.len()
        invariant
            i <= extra_objs@.len(),
            texts(args@) == before + texts(extra_objs@.take(i as int)),
        decreases extra_objs@.len() - i,
    {
        push_arg(&mut args, extra_objs[i].clone());
        assert(texts(extra_objs@.take(i + 1)) =~= texts(extra_objs@.take(i as int)).push(extra_objs@[i as int]@));
        i = i + 1;
        assert(texts(args@) =~= before + texts(extra_objs@.take(i as int)));
    }
    assert(extra_objs@.take(extra_objs@.len() as int) =~= extra_objs@);
    match &opts.entry_point {
        Some(ep) => {
            if !str_eq(ep.as_str(), "main") {
                let mut e = owned("/ENTRY:");
                e.append(ep.as_str());
                push_arg(&mut args, e);
                push_arg(&mut args, owned("/SUBSYSTEM:CONSOLE"));
            }
        },
        None => {},
    }
    push_suffixed(&mut args, &opts.link_libs, ".lib");
    push_prefixed(&mut args, lib_dirs, "/LIBPATH:");
    assert(texts(args@) =~= msvc_link_args_spec(obj_path@, extra_objs@, *opts, final_output@, lib_dirs@));
    args
}

// ==================== library directories of an MSVC environment ====================

/// The pieces of `s` between the occurrences of `c` (one piece when `c`
/// does not occur; empty pieces are kept).
pub open spec fn split_pieces(s: Seq<char>, c: char) -> Seq<Seq<char>>
    decreases s.len(),
{
    if s.len() == 0 {
        seq![Seq::empty()]
    } else {
        let rest = split_pieces(s.drop_last(), c);
        if s.last() == c {
            rest.push(Seq::empty())
        } else {
            rest.update(rest.len() - 1, rest.last().push(s.last()))
        }
    }
}

proof fn lemma_split_pieces_len(s: Seq<char>, c: char)
    ensures
        split_pieces(s, c).len() >= 1,
    decreases s.len(),
{
    if s.len() > 0 {
        lemma_split_pieces_len(s.drop_last(), c);
    }
}

/// `s` without its leading white space.
pub open spec fn trim_start(s: Seq<char>) -> Seq<char>
    decreases s.len(),
{
    if s.len() > 0 && is_white_space(s[0]) {
        trim_start(s.drop_first())
    } else {
        s
    }
}

/// `s` without its trailing white space.
pub open spec fn trim_end(s: Seq<char>) -> Seq<char>
    decreases s.len(),
{
    if s.len() > 0 && is_white_space(s.last()) {
        trim_end(s.drop_last())
    } else {
        s
    }
}

/// `s` without leading and trailing white space (`str::trim`).
pub open spec fn trimmed(s: Seq<char>) -> Seq<char> {
    trim_end(trim_start(s))
}

/// The pieces, trimmed, that are not empty after trimming.
pub open spec fn kept_dirs(pieces: Seq<Seq<char>>) -> Seq<Seq<char>>
    decreases pieces.len(),
{
    if pieces.len() == 0 {
        Seq::empty()
    } else {
        kept_dirs(pieces.drop_last()) + if trimmed(pieces.last()).len() > 0 {
            seq![trimmed(pieces.last())]
        } else {
            Seq::empty()
        }
    }
}

/// The name `lib`, ignoring ASCII case.
pub open spec fn is_lib_key(k: Seq<char>) -> bool {
    &&& k.len() == 3
    &&& (k[0] == 'l' || k[0] == 'L')
    &&& (k[1] == 'i' || k[1] == 'I')
    &&& (k[2] == 'b' || k[2] == 'B')
}

/// The directories named by the `LIB` variables of an environment, in
/// order: each value split at `;`, each piece trimmed, empty ones dropped.
pub open spec fn lib_env_dirs(env: Seq<(String, String)>) -> Seq<Seq<char>>
    decreases env.len(),
{
    if env.len() == 0 {
        Seq::empty()
    } else {
        lib_env_dirs(env.drop_last()) + if is_lib_key(env.last().0@) {
            kept_dirs(split_pieces(env.last().1@, ';'))
        } else {
            Seq::empty()
        }
    }
}

/// The characters `from` to `to` of `v`, trimmed.
fn trimmed_between(v: &Vec<char>, from: usize, to: usize) -> (s: String)
    requires
        from <= to <= v@.len(),
    ensures
        s@ == trimmed(v@.subrange(from as int, to as int)),
{
    let mut j = from;
    while j < to && char_is_white_space(v[j])
        invariant
            from <= j <= to <= v@.len(),
            trim_start(v@.subrange(j as int, to as int)) == trim_start(v@.subrange(from as int, to as int)),
        decreases to - j,
    {
        assert(v@.subrange(j as int, to as int).drop_first() =~= v@.subrange(j + 1, to as int));
        j = j + 1;
    }
    assert(trim_start(v@.subrange(j as int, to as int)) == v@.subrange(j as int, to as int));
    let mut k = to;
    while k > j && char_is_white_space(v[k - 1])
        invariant
            from <= j <= k <= to <= v@.len(),
            trim_end(v@.subrange(j as int, k as int)) == trim_end(v@.subrange(j as int, to as int)),
        decreases k - j,
    {
        assert(v@.subrange(j as int, k as int).drop_last() =~= v@.subrange(j as int, k - 1));
        k = k - 1;
    }
    assert(trim_end(v@.subrange(j as int, k as int)) == v@.subrange(j as int, k as int));
    chars_to_string(v, j, k)
}

/// Appends the directories one `LIB` value names (see `lib_env_dirs`).
fn push_lib_dirs(dirs: &mut Vec<String>, value: &str)
    ensures
        texts(final(dirs)@) == texts(old(dirs)@) + kept_dirs(split_pieces(value@, ';')),
{
    let v = str_chars(value);
    let ghost s = v@;
    let mut start: usize = 0;
    let mut i: usize = 0;
    proof {
        assert(s.take(0) =~= Seq::<char>::empty());
        assert(split_pieces(s.take(0), ';') == seq![Seq::<char>::empty()]);
        assert(split_pieces(s.take(0), ';').drop_last() =~= Seq::<Seq<char>>::empty());
        assert(s.subrange(0, 0) =~= Seq::<char>::empty());
    }
    while i < v.len()
        invariant
            s == v@,
            s == value@,
            start <= i <= s.len(),
            split_pieces(s.take(i as int), ';').len() >= 1,
            split_pieces(s.take(i as int), ';').last() == s.subrange(start as int, i as int),
            texts(dirs@) == texts(old(dirs)@) + kept_dirs(split_pieces(s.take(i as int), ';').drop_last()),
        decreases s.len() - i,
    {
        let ghost p = split_pieces(s.take(i as int), ';');
        proof {
            assert(s.take(i + 1).drop_last() =~= s.take(i as int));
            assert(s.take(i + 1).last() == s[i as int]);
        }
        if v[i] == ';' {
            let piece = trimmed_between(&v, start, i);
            proof {
                assert(split_pieces(s.take(i + 1), ';') == p.push(Seq::empty()));
                assert(p.push(Seq::empty()).drop_last() =~= p);
                assert(p.drop_last().push(p.last()) =~= p);
                assert(p.drop_last() =~= p.drop_last());
            }
            if !piece.as_str().is_empty() {
                push_arg(dirs, piece);
            }
            proof {
                assert(kept_dirs(p) == kept_dirs(p.drop_last()) + if trimmed(p.last()).len() > 0 {
                    seq![trimmed(p.last())]
                } else {
                    Seq::<Seq<char>>::empty()
                });
                assert(texts(dirs@) =~= texts(old(dirs)@) + kept_dirs(p));
                assert(s.subrange(i + 1, i + 1) =~= Seq::<char>::empty());
            }
            start = i + 1;
        } else {
            proof {
                let q = p.update(p.len() - 1, p.last().push(s[i as int]));
                assert(split_pieces(s.take(i + 1), ';') == q);
                assert(q.drop_last() =~= p.drop_last());
                assert(s.subrange(start as int, i + 1) =~= s.subrange(start as int, i as int).push(s[i as int]));
            }
        }
        i = i + 1;
    }
    assert(s.take(s.len() as int) =~= s);
    let ghost p = split_pieces(s, ';');
    let piece = trimmed_between(&v, start, v.len());
    proof {
        assert(p.drop_last().push(p.last()) =~= p);
    }
    if !piece.as_str().is_empty() {
        push_arg(dirs, piece);
    }
    proof {
        assert(kept_dirs(p) == kept_dirs(p.drop_last()) + if trimmed(p.last()).len() > 0 {
            seq![trimmed(p.last())]
        } else {
            Seq::<Seq<char>>::empty()
        });
        assert(texts(dirs@) =~= texts(old(dirs)@) + kept_dirs(p));
    }
}

/// Whether a name is `lib`, ignoring ASCII case.
fn is_lib_name(k: &str) -> (r: bool)
    ensures
        r == is_lib_key(k@),
{
    let v = str_chars(k);
    v.len() == 3 && (v[0] == 'l' || v[0] == 'L') && (v[1] == 'i' || v[1] == 'I') && (v[2] == 'b' || v[2] == 'B')
}

/// The library directories an environment's `LIB` variables name (see
/// `lib_env_dirs`); which of them exist is not checked here.
pub fn msvc_lib_env_dirs(env: &Vec<(String, String)>) -> (dirs: Vec<String>)
    ensures
        texts(dirs@) == lib_env_dirs(env@),
{
    let mut dirs: Vec<String> = Vec::new();
    let mut i: usize = 0;
    assert(texts(dirs@) =~= Seq::<Seq<char>>::empty());
    while i < env.len()
        invariant
            i <= env@.len(),
            texts(dirs@) == lib_env_dirs(env@.take(i as int)),
        decreases env@.len() - i,
    {
        let ghost before = texts(dirs@);
        proof {
            assert(env@.take(i + 1).drop_last() =~= env@.take(i as int));
            assert(env@.take(i + 1).last() == env@[i as int]);
        }
        if is_lib_name(env[i].0.as_str()) {
            push_lib_dirs(&mut dirs, env[i].1.as_str());
        } else {
            assert(before + Seq::<Seq<char>>::empty() =~= before);
        }
        i = i + 1;
    }
    assert(env@.take(env@.len() as int) =~= env@);
    dirs
}

// ==================== messages ====================

/// An exit status as `{:?}` prints an `Option<i32>`: `Some(<code>)` or
/// `None` (killed by a signal).
pub open spec fn exit_code_text_spec(code: Option<i32>) -> Seq<char> {
    match code {
        Some(c) => "Some("@ + int_decimal(c as int) + ")"@,
        None => "None"@,
    }
}

/// An exit status as `{:?}` prints it.
pub fn exit_code_text(code: Option<i32>) -> (s: String)
    ensures
        s@ == exit_code_text_spec(code),
{
    match code {
        Some(c) => {
            let mut s = owned("Some(");
            append_int(&mut s, c as i64);
            s.append(")");
            s
        },
        None => owned("None"),
    }
}

/// The report of a failed step run with `tool`: its exit status and what
/// the tool printed.
pub open spec fn step_failure_text(step: Seq<char>, tool: Seq<char>, code: Option<i32>, out: Seq<char>, err: Seq<char>) -> Seq<char> {
    step + " failed with exit code "@ + exit_code_text_spec(code) + "\n--- "@ + tool + " stdout ---\n"@ + out + "\n--- "@
        + tool + " stderr ---\n"@ + err
}

/// The report of a failed step (`Runtime compilation`, `Stubs
/// compilation`, `Linking`) run with `tool` (`cl.exe`, `link.exe`,
/// `linker`).
pub fn step_failure_error(step: &str, tool: &str, code: Option<i32>, stdout: &str, stderr: &str) -> (s: String)
    ensures
        s@ == step_failure_text(step@, tool@, code, stdout@, stderr@),
{
    let mut s = owned(step);
    s.append(" failed with exit code ");
    let c = exit_code_text(code);
    s.append(c.as_str());
    s.append("\n--- ");
    s.append(tool);
    s.append(" stdout ---\n");
    s.append(stdout);
    s.append("\n--- ");
    s.append(tool);
    s.append(" stderr ---\n");
    s.append(stderr);
    s
}

/// The report of a failed bare-metal link.
pub open spec fn bare_link_failure_text(code: Option<i32>, out: Seq<char>, err: Seq<char>) -> Seq<char> {
    "Linking failed with exit code "@ + exit_code_text_spec(code) + "\n\nstdout:\n"@ + out + "\n\nstderr:\n"@ + err
}

/// The report of a failed bare-metal link.
pub fn bare_link_failure_error(code: Option<i32>, stdout: &str, stderr: &str) -> (s: String)
    ensures
        s@ == bare_link_failure_text(code, stdout@, stderr@),
{
    let mut s = owned("Linking failed with exit code ");
    let c = exit_code_text(code);
    s.append(c.as_str());
    s.append("\n\nstdout:\n");
    s.append(stdout);
    s.append("\n\nstderr:\n");
    s.append(stderr);
    s
}

/// The report of a compile step that exited successfully without writing
/// its object.
pub open spec fn missing_output_text(step: Seq<char>, obj: Seq<char>, out: Seq<char>, err: Seq<char>) -> Seq<char> {
    step + " appeared to succeed but '"@ + obj + "' was not produced.\ncl.exe stdout: "@ + out + "\ncl.exe stderr: "@ + err
}

/// The report of a compile step that exited successfully without writing
/// its object.
pub fn missing_output_error(step: &str, obj: &str, stdout: &str, stderr: &str) -> (s: String)
    ensures
        s@ == missing_output_text(step@, obj@, stdout@, stderr@),
{
    let mut s = owned(step);
    s.append(" appeared to succeed but '");
    s.append(obj);
    s.append("' was not produced.\ncl.exe stdout: ");
    s.append(stdout);
    s.append("\ncl.exe stderr: ");
    s.append(stderr);
    s
}

/// The error when the MSVC link path was chosen for a target whose C
/// compiler is not MSVC-family.
pub fn not_msvc_error(target: &str) -> (s: String)
    ensures
        s@ == "target '"@ + target@ + "' is not MSVC-family but the MSVC link path was selected"@,
{
    let mut s = owned("target '");
    s.append(target);
    s.append("' is not MSVC-family but the MSVC link path was selected");
    s
}

/// The error when the object to link does not exist.
pub fn missing_object_error(obj_path: &str) -> (s: String)
    ensures
        s@ == "link_msvc: main object file '"@ + obj_path@ + "' does not exist before linking"@,
{
    let mut s = owned("link_msvc: main object file '");
    s.append(obj_path);
    s.append("' does not exist before linking");
    s
}

/// The error when a tool cannot be started: `Failed to invoke <what>
/// '<path>': <reason>`.
pub fn invoke_failure_error(what: &str, path: &str, reason: &str) -> (s: String)
    ensures
        s@ == "Failed to invoke "@ + what@ + " '"@ + path@ + "': "@ + reason@,
{
    let mut s = owned("Failed to invoke ");
    s.append(what);
    s.append(" '");
    s.append(path);
    s.append("': ");
    s.append(reason);
    s
}

/// The error when the C compiler cannot be started for the runtime.
pub fn runtime_compiler_failure_error(compiler: &str, reason: &str) -> (s: String)
    ensures
        s@ == "Failed to compile runtime with '"@ + compiler@ + "': "@ + reason@
            + "\n(Is cl.exe on PATH? The cc-discovered env should include it.)"@,
{
    let mut s = owned("Failed to compile runtime with '");
    s.append(compiler);
    s.append("': ");
    s.append(reason);
    s.append("\n(Is cl.exe on PATH? The cc-discovered env should include it.)");
    s
}

/// The error when the C compiler cannot be started for the stubs.
pub fn stubs_compiler_failure_error(compiler: &str, reason: &str) -> (s: String)
    ensures
        s@ == "Failed to compile stubs with '"@ + compiler@ + "': "@ + reason@,
{
    let mut s = owned("Failed to compile stubs with '");
    s.append(compiler);
    s.append("': ");
    s.append(reason);
    s
}

/// The error when looking for the MSVC toolchain fails.
pub fn msvc_discovery_error(reason: &str) -> (s: String)
    ensures
        s@ == "MSVC toolchain discovery failed: "@ + reason@,
{
    let mut s = owned("MSVC toolchain discovery failed: ");
    s.append(reason);
    s
}

} // verus!
