//! Semantic analysis: the analyzer's state (symbol table, struct fields,
//! traits, generic parameters in scope, diagnostics) and the checks that
//! read and extend it.
use vstd::prelude::*;
use vstd::utf8::*;
use vstd::string::StringSliceAdditionalSpecFns;
use crate::ast::{MatchPattern, Block, Parameter, Expression, StructFieldInit, TypeNode, StructField, StructDefinition, EnumDefinition, EnumVariant, Function, TraitDefinition, TraitMethod, ImplBlock, ImplItem, ExternBlock, Program, Statement};
use crate::environment::{data_type_clone, data_type_eq, DataType, TypeView, Environment, Symbol, SymbolType, data_type_to_string, type_text, with_global, declared_in, lookup_in, scope_of, is_variable_symbol};
use crate::error::ErrorFormatter;
use crate::table::Table;
use crate::ir::clone_strings;
use crate::text::{last_path_segment, last_segment, owned, str_chars, chars_to_string, skip_white, skip_white_exec, find_char, find_char_exec, bytes_before, text_before, nat_digits, append_nat, str_eq, bytes_match_at, bytes_match_at_exec, join_seq, join_strings};

verus! {

broadcast use vstd::string::group_string_axioms;

/// Whether the program is built for debugging or for release; a release
/// build leaves out items marked `#[debug]`.
#[derive(Debug, Clone, Copy, PartialEq, Eq, Structural)]
pub enum BuildMode {
    Debug,
    Release,
}

/// A method that a trait requires.
pub struct TraitMethodSig {
    pub name: String,
    /// Its number of parameters, `self` included.
    pub param_count: usize,
    /// Marked `#[dynamic]`.
    pub dynamic: bool,
}

/// A trait known to the analyzer.
pub struct TraitDefInfo {
    pub name: String,
    pub methods: Vec<TraitMethodSig>,
    pub generic_params: Vec<String>,
}

/// A trait as a mathematical value: its name, its methods as (name,
/// parameter count, dynamic), and its generic parameters.
pub struct TraitView {
    pub name: Seq<char>,
    pub methods: Seq<(Seq<char>, nat, bool)>,
    pub generic_params: Seq<Seq<char>>,
}

impl View for TraitMethodSig {
    type V = (Seq<char>, nat, bool);

    open spec fn view(&self) -> (Seq<char>, nat, bool) {
        (self.name@, self.param_count as nat, self.dynamic)
    }
}

impl View for TraitDefInfo {
    type V = TraitView;

    open spec fn view(&self) -> TraitView {
        TraitView {
            name: self.name@,
            methods: self.methods@.map_values(|m: TraitMethodSig| m@),
            generic_params: self.generic_params@.map_values(|g: String| g@),
        }
    }
}

/// The analyzer's state as mathematical values.
pub struct AnalyzerView {
    /// The symbol table's scopes, global first.
    pub scopes: Seq<Map<Seq<char>, Symbol>>,
    /// The diagnostics reported so far, formatted.
    pub diagnostics: Seq<Seq<char>>,
    /// An error has been reported.
    pub failed: bool,
    pub formatter: Option<ErrorFormatter>,
    pub function: Seq<char>,
    pub function_return_type: TypeView,
    pub has_return: bool,
    pub loop_depth: i32,
    /// The module being analysed.
    pub module: Seq<char>,
    /// The types of the expressions visited, innermost last.
    pub types: Seq<TypeView>,
    /// The fields of each struct (and lowered enum) and their types.
    pub struct_fields: Map<Seq<char>, Map<Seq<char>, TypeView>>,
    /// The struct whose `impl` block is being analysed.
    pub impl_struct: Option<Seq<char>>,
    /// Where modules are searched for.
    pub lib_paths: Seq<Seq<char>>,
    pub loaded_modules: Seq<Seq<char>>,
    /// The directory of the module being analysed.
    pub module_dir: Option<Seq<char>>,
    pub module_aliases: Map<Seq<char>, Seq<char>>,
    /// The generic parameters in scope.
    pub generics: Seq<Seq<char>>,
    pub build_mode: BuildMode,
    pub traits: Map<Seq<char>, TraitView>,
    /// `impl Trait for Type` blocks still to validate: (type, trait,
    /// methods provided).
    pub pending: Seq<(Seq<char>, Seq<char>, Seq<Seq<char>>)>,
    /// Each error with its position (0, 0 when it has none).
    pub positions: Seq<(i32, i32, Seq<char>)>,
    /// Libraries to link, from `extern "C"` blocks.
    pub extern_libs: Seq<Seq<char>>,
    /// The methods declared through `impl` blocks: (type, method, arity).
    pub impl_methods: Seq<(Seq<char>, Seq<char>, nat)>,
}

/// Checks a program's names and types, collecting diagnostics.
pub struct SemanticAnalyzer {
    env: Environment,
    errors: Vec<String>,
    has_error: bool,
    error_formatter: Option<ErrorFormatter>,
    current_function: String,
    current_function_return_type: DataType,
    has_return_statement: bool,
    loop_depth: i32,
    current_module: String,
    type_stack: Vec<DataType>,
    struct_fields: Table<Table<DataType>>,
    current_impl_struct: Option<String>,
    lib_paths: Vec<String>,
    loaded_modules: Vec<String>,
    current_module_dir: Option<String>,
    module_aliases: Table<String>,
    current_generic_params: Vec<String>,
    build_mode: BuildMode,
    trait_defs: Table<TraitDefInfo>,
    pending_trait_impls: Vec<(String, String, Vec<String>)>,
    /// Each error with its position (line, column, message), for editors.
    structured_errors: Vec<(i32, i32, String)>,
    /// Libraries to link, from `extern "C"` blocks.
    extern_libs: Vec<String>,
    impl_methods: Vec<(String, String, usize)>,
}

/// The texts of a sequence of strings.
pub open spec fn texts(v: Seq<String>) -> Seq<Seq<char>> {
    v.map_values(|s: String| s@)
}

/// The field tables as mathematical maps.
pub open spec fn field_tables(t: Map<Seq<char>, Table<DataType>>) -> Map<Seq<char>, Map<Seq<char>, TypeView>> {
    t.map_values(|f: Table<DataType>| f@.map_values(|d: DataType| d@))
}

impl View for SemanticAnalyzer {
    type V = AnalyzerView;

    closed spec fn view(&self) -> AnalyzerView {
        AnalyzerView {
            scopes: self.env@,
            diagnostics: texts(self.errors@),
            failed: self.has_error,
            formatter: self.error_formatter,
            function: self.current_function@,
            function_return_type: self.current_function_return_type@,
            has_return: self.has_return_statement,
            loop_depth: self.loop_depth,
            module: self.current_module@,
            types: self.type_stack@.map_values(|d: DataType| d@),
            struct_fields: field_tables(self.struct_fields@),
            impl_struct: match self.current_impl_struct {
                Some(s) => Some(s@),
                None => None,
            },
            lib_paths: texts(self.lib_paths@),
            loaded_modules: texts(self.loaded_modules@),
            module_dir: match self.current_module_dir {
                Some(s) => Some(s@),
                None => None,
            },
            module_aliases: self.module_aliases@.map_values(|s: String| s@),
            generics: texts(self.current_generic_params@),
            build_mode: self.build_mode,
            traits: self.trait_defs@.map_values(|t: TraitDefInfo| t@),
            pending: self.pending_trait_impls@.map_values(
                |p: (String, String, Vec<String>)| (p.0@, p.1@, texts(p.2@)),
            ),
            positions: self.structured_errors@.map_values(|p: (i32, i32, String)| (p.0, p.1, p.2@)),
            extern_libs: texts(self.extern_libs@),
            impl_methods: self.impl_methods@.map_values(|m: (String, String, usize)| (m.0@, m.1@, m.2 as nat)),
        }
    }
}

/// How a diagnostic is written: through the formatter when there is one
/// (as an `error`, coloured), else as `Error: <message>`.
pub open spec fn diagnostic(fmt: Option<ErrorFormatter>, line: i32, col: i32, span: nat, msg: Seq<char>) -> Seq<char> {
    match fmt {
        Some(f) => f.error_spec(line, col, span, "error"@, msg, true),
        None => "Error: "@ + msg,
    }
}

/// The state after an error is reported at (`line`, `col`).
pub open spec fn with_error(v: AnalyzerView, line: i32, col: i32, span: nat, msg: Seq<char>) -> AnalyzerView {
    AnalyzerView {
        diagnostics: v.diagnostics.push(diagnostic(v.formatter, line, col, span, msg)),
        failed: true,
        positions: v.positions.push((line, col, msg)),
        ..v
    }
}

/// The state after errors without a position are reported, in order.
pub open spec fn with_errors(v: AnalyzerView, msgs: Seq<Seq<char>>) -> AnalyzerView
    decreases msgs.len(),
{
    if msgs.len() == 0 {
        v
    } else {
        with_error(with_errors(v, msgs.drop_last()), 0, 0, 0, msgs.last())
    }
}

/// Reporting errors changes nothing but the diagnostics, the failure flag
/// and the positions.
proof fn lemma_with_errors_frame(v: AnalyzerView, msgs: Seq<Seq<char>>)
    ensures
        with_errors(v, msgs) == (AnalyzerView {
            diagnostics: with_errors(v, msgs).diagnostics,
            failed: with_errors(v, msgs).failed,
            positions: with_errors(v, msgs).positions,
            ..v
        }),
    decreases msgs.len(),
{
    if msgs.len() > 0 {
        lemma_with_errors_frame(v, msgs.drop_last());
    }
}

/// What reporting errors does depends only on the diagnostics, the failure
/// flag, the positions and the formatter.
proof fn lemma_with_errors_same(v: AnalyzerView, w: AnalyzerView, msgs: Seq<Seq<char>>)
    requires
        v.diagnostics == w.diagnostics,
        v.failed == w.failed,
        v.positions == w.positions,
        v.formatter == w.formatter,
    ensures
        with_errors(v, msgs).diagnostics == with_errors(w, msgs).diagnostics,
        with_errors(v, msgs).failed == with_errors(w, msgs).failed,
        with_errors(v, msgs).positions == with_errors(w, msgs).positions,
    decreases msgs.len(),
{
    if msgs.len() > 0 {
        lemma_with_errors_same(v, w, msgs.drop_last());
        lemma_with_errors_frame(v, msgs.drop_last());
        lemma_with_errors_frame(w, msgs.drop_last());
    }
}

proof fn lemma_with_errors_push(v: AnalyzerView, msgs: Seq<Seq<char>>, m: Seq<char>)
    ensures
        with_errors(v, msgs.push(m)) == with_error(with_errors(v, msgs), 0, 0, 0, m),
{
    assert(msgs.push(m).drop_last() =~= msgs);
}

proof fn lemma_with_errors_concat(v: AnalyzerView, a: Seq<Seq<char>>, b: Seq<Seq<char>>)
    ensures
        with_errors(v, a + b) == with_errors(with_errors(v, a), b),
    decreases b.len(),
{
    if b.len() == 0 {
        assert(a + b =~= a);
    } else {
        lemma_with_errors_concat(v, a, b.drop_last());
        assert((a + b).drop_last() =~= a + b.drop_last());
    }
}

/// The trait method an operator is written as.
pub open spec fn operator_method(op: Seq<char>) -> Option<Seq<char>> {
    if op == "+"@ {
        Some("add"@)
    } else if op == "-"@ {
        Some("sub"@)
    } else if op == "*"@ {
        Some("mul"@)
    } else if op == "/"@ {
        Some("div"@)
    } else if op == "%"@ {
        Some("rem"@)
    } else if op == "=="@ {
        Some("eq"@)
    } else if op == "!="@ {
        Some("ne"@)
    } else if op == "<"@ {
        Some("lt"@)
    } else if op == ">"@ {
        Some("gt"@)
    } else if op == "<="@ {
        Some("le"@)
    } else if op == ">="@ {
        Some("ge"@)
    } else {
        None
    }
}

/// A trait built into the language: its methods take `param_count`
/// parameters, none is dynamic, and its one generic parameter is `T`.
pub open spec fn std_trait_view(name: Seq<char>, methods: Seq<Seq<char>>, param_count: nat) -> TraitView {
    TraitView {
        name,
        methods: methods.map_values(|m: Seq<char>| (m, param_count, false)),
        generic_params: seq!["T"@],
    }
}

/// The operator and comparison traits built into the language.
pub open spec fn std_traits() -> Map<Seq<char>, TraitView> {
    map![
        "std::ops::Add"@ => std_trait_view("std::ops::Add"@, seq!["add"@], 2),
        "std::ops::Sub"@ => std_trait_view("std::ops::Sub"@, seq!["sub"@], 2),
        "std::ops::Mul"@ => std_trait_view("std::ops::Mul"@, seq!["mul"@], 2),
        "std::ops::Div"@ => std_trait_view("std::ops::Div"@, seq!["div"@], 2),
        "std::ops::Rem"@ => std_trait_view("std::ops::Rem"@, seq!["rem"@], 2),
        "std::cmp::Eq"@ => std_trait_view("std::cmp::Eq"@, seq!["eq"@], 2),
        "std::cmp::Cmp"@ => std_trait_view("std::cmp::Cmp"@, seq!["lt"@, "le"@, "gt"@, "ge"@], 2),
        "std::mem::Drop"@ => std_trait_view("std::mem::Drop"@, seq!["drop"@], 1)
    ]
}

/// `m` with `k` mapped to `v` unless it already has `k`.
pub open spec fn add_absent(m: Map<Seq<char>, TraitView>, k: Seq<char>, v: TraitView) -> Map<Seq<char>, TraitView> {
    if m.contains_key(k) {
        m
    } else {
        m.insert(k, v)
    }
}

proof fn lemma_std_traits(m: Map<Seq<char>, TraitView>)
    ensures
        add_absent(add_absent(add_absent(add_absent(add_absent(add_absent(add_absent(add_absent(m,
            "std::ops::Add"@, std_trait_view("std::ops::Add"@, seq!["add"@], 2)),
            "std::ops::Sub"@, std_trait_view("std::ops::Sub"@, seq!["sub"@], 2)),
            "std::ops::Mul"@, std_trait_view("std::ops::Mul"@, seq!["mul"@], 2)),
            "std::ops::Div"@, std_trait_view("std::ops::Div"@, seq!["div"@], 2)),
            "std::ops::Rem"@, std_trait_view("std::ops::Rem"@, seq!["rem"@], 2)),
            "std::cmp::Eq"@, std_trait_view("std::cmp::Eq"@, seq!["eq"@], 2)),
            "std::cmp::Cmp"@, std_trait_view("std::cmp::Cmp"@, seq!["lt"@, "le"@, "gt"@, "ge"@], 2)),
            "std::mem::Drop"@, std_trait_view("std::mem::Drop"@, seq!["drop"@], 1))
            == std_traits().union_prefer_right(m),
{
    reveal_strlit("std::ops::Add");
    reveal_strlit("std::ops::Sub");
    reveal_strlit("std::ops::Mul");
    reveal_strlit("std::ops::Div");
    reveal_strlit("std::ops::Rem");
    reveal_strlit("std::cmp::Eq");
    reveal_strlit("std::cmp::Cmp");
    reveal_strlit("std::mem::Drop");
    assert("std::ops::Add"@[5] == 'o' && "std::ops::Add"@[10] == 'A');
    assert("std::ops::Sub"@[5] == 'o' && "std::ops::Sub"@[10] == 'S');
    assert("std::ops::Mul"@[5] == 'o' && "std::ops::Mul"@[10] == 'M');
    assert("std::ops::Div"@[5] == 'o' && "std::ops::Div"@[10] == 'D');
    assert("std::ops::Rem"@[5] == 'o' && "std::ops::Rem"@[10] == 'R');
    assert("std::cmp::Eq"@[5] == 'c' && "std::cmp::Eq"@[10] == 'E');
    assert("std::cmp::Cmp"@[5] == 'c' && "std::cmp::Cmp"@[10] == 'C');
    assert("std::mem::Drop"@[5] == 'm' && "std::mem::Drop"@[10] == 'D');
    let m1 = add_absent(m, "std::ops::Add"@, std_trait_view("std::ops::Add"@, seq!["add"@], 2));
    let m2 = add_absent(m1, "std::ops::Sub"@, std_trait_view("std::ops::Sub"@, seq!["sub"@], 2));
    let m3 = add_absent(m2, "std::ops::Mul"@, std_trait_view("std::ops::Mul"@, seq!["mul"@], 2));
    let m4 = add_absent(m3, "std::ops::Div"@, std_trait_view("std::ops::Div"@, seq!["div"@], 2));
    let m5 = add_absent(m4, "std::ops::Rem"@, std_trait_view("std::ops::Rem"@, seq!["rem"@], 2));
    let m6 = add_absent(m5, "std::cmp::Eq"@, std_trait_view("std::cmp::Eq"@, seq!["eq"@], 2));
    let m7 = add_absent(m6, "std::cmp::Cmp"@, std_trait_view("std::cmp::Cmp"@, seq!["lt"@, "le"@, "gt"@, "ge"@], 2));
    let m8 = add_absent(m7, "std::mem::Drop"@, std_trait_view("std::mem::Drop"@, seq!["drop"@], 1));
    let u = std_traits().union_prefer_right(m);
    assert(m8.dom() =~= u.dom());
    assert forall|k: Seq<char>| #[trigger] m8.contains_key(k) implies m8[k] == u[k] by {
        if m.contains_key(k) {
            assert(m1[k] == m[k]);
            assert(m2[k] == m[k]);
            assert(m3[k] == m[k]);
            assert(m4[k] == m[k]);
            assert(m5[k] == m[k]);
            assert(m6[k] == m[k]);
            assert(m7[k] == m[k]);
        } else {
            if k == "std::ops::Add"@ {
                assert(u[k] == std_trait_view("std::ops::Add"@, seq!["add"@], 2));
                assert(m1[k] == std_trait_view("std::ops::Add"@, seq!["add"@], 2));
                assert(m2[k] == std_trait_view("std::ops::Add"@, seq!["add"@], 2));
                assert(m3[k] == std_trait_view("std::ops::Add"@, seq!["add"@], 2));
                assert(m4[k] == std_trait_view("std::ops::Add"@, seq!["add"@], 2));
                assert(m5[k] == std_trait_view("std::ops::Add"@, seq!["add"@], 2));
                assert(m6[k] == std_trait_view("std::ops::Add"@, seq!["add"@], 2));
                assert(m7[k] == std_trait_view("std::ops::Add"@, seq!["add"@], 2));
                assert(m8[k] == std_trait_view("std::ops::Add"@, seq!["add"@], 2));
            }
            if k == "std::ops::Sub"@ {
                assert(u[k] == std_trait_view("std::ops::Sub"@, seq!["sub"@], 2));
                assert(m2[k] == std_trait_view("std::ops::Sub"@, seq!["sub"@], 2));
                assert(m3[k] == std_trait_view("std::ops::Sub"@, seq!["sub"@], 2));
                assert(m4[k] == std_trait_view("std::ops::Sub"@, seq!["sub"@], 2));
                assert(m5[k] == std_trait_view("std::ops::Sub"@, seq!["sub"@], 2));
                assert(m6[k] == std_trait_view("std::ops::Sub"@, seq!["sub"@], 2));
                assert(m7[k] == std_trait_view("std::ops::Sub"@, seq!["sub"@], 2));
                assert(m8[k] == std_trait_view("std::ops::Sub"@, seq!["sub"@], 2));
            }
            if k == "std::ops::Mul"@ {
                assert(u[k] == std_trait_view("std::ops::Mul"@, seq!["mul"@], 2));
                assert(m3[k] == std_trait_view("std::ops::Mul"@, seq!["mul"@], 2));
                assert(m4[k] == std_trait_view("std::ops::Mul"@, seq!["mul"@], 2));
                assert(m5[k] == std_trait_view("std::ops::Mul"@, seq!["mul"@], 2));
                assert(m6[k] == std_trait_view("std::ops::Mul"@, seq!["mul"@], 2));
                assert(m7[k] == std_trait_view("std::ops::Mul"@, seq!["mul"@], 2));
                assert(m8[k] == std_trait_view("std::ops::Mul"@, seq!["mul"@], 2));
            }
            if k == "std::ops::Div"@ {
                assert(u[k] == std_trait_view("std::ops::Div"@, seq!["div"@], 2));
                assert(m4[k] == std_trait_view("std::ops::Div"@, seq!["div"@], 2));
                assert(m5[k] == std_trait_view("std::ops::Div"@, seq!["div"@], 2));
                assert(m6[k] == std_trait_view("std::ops::Div"@, seq!["div"@], 2));
                assert(m7[k] == std_trait_view("std::ops::Div"@, seq!["div"@], 2));
                assert(m8[k] == std_trait_view("std::ops::Div"@, seq!["div"@], 2));
            }
            if k == "std::ops::Rem"@ {
                assert(u[k] == std_trait_view("std::ops::Rem"@, seq!["rem"@], 2));
                assert(m5[k] == std_trait_view("std::ops::Rem"@, seq!["rem"@], 2));
                assert(m6[k] == std_trait_view("std::ops::Rem"@, seq!["rem"@], 2));
                assert(m7[k] == std_trait_view("std::ops::Rem"@, seq!["rem"@], 2));
                assert(m8[k] == std_trait_view("std::ops::Rem"@, seq!["rem"@], 2));
            }
            if k == "std::cmp::Eq"@ {
                assert(u[k] == std_trait_view("std::cmp::Eq"@, seq!["eq"@], 2));
                assert(m6[k] == std_trait_view("std::cmp::Eq"@, seq!["eq"@], 2));
                assert(m7[k] == std_trait_view("std::cmp::Eq"@, seq!["eq"@], 2));
                assert(m8[k] == std_trait_view("std::cmp::Eq"@, seq!["eq"@], 2));
            }
            if k == "std::cmp::Cmp"@ {
                assert(u[k] == std_trait_view("std::cmp::Cmp"@, seq!["lt"@, "le"@, "gt"@, "ge"@], 2));
                assert(m7[k] == std_trait_view("std::cmp::Cmp"@, seq!["lt"@, "le"@, "gt"@, "ge"@], 2));
                assert(m8[k] == std_trait_view("std::cmp::Cmp"@, seq!["lt"@, "le"@, "gt"@, "ge"@], 2));
            }
            if k == "std::mem::Drop"@ {
                assert(u[k] == std_trait_view("std::mem::Drop"@, seq!["drop"@], 1));
                assert(m8[k] == std_trait_view("std::mem::Drop"@, seq!["drop"@], 1));
            }
        }
    }
    assert(m8 =~= u);
}

/// The errors for the methods a trait requires that an `impl` of it for
/// `struct_name` does not provide, in the trait's order.
pub open spec fn missing_methods(
    trait_name: Seq<char>,
    struct_name: Seq<char>,
    required: Seq<(Seq<char>, nat, bool)>,
    provided: Seq<Seq<char>>,
) -> Seq<Seq<char>>
    decreases required.len(),
{
    if required.len() == 0 {
        Seq::empty()
    } else {
        let prev = missing_methods(trait_name, struct_name, required.drop_last(), provided);
        let m = required.last().0;
        if provided.contains(m) {
            prev
        } else {
            prev.push(
                "Trait '"@ + trait_name + "' requires method '"@ + m + "', but it is missing in impl for '"@
                    + struct_name + "'"@,
            )
        }
    }
}

/// The errors that validating pending `impl Trait for Type` blocks
/// reports, in order: an undefined trait, or each required method missing.
pub open spec fn trait_impl_errors(
    pending: Seq<(Seq<char>, Seq<char>, Seq<Seq<char>>)>,
    traits: Map<Seq<char>, TraitView>,
) -> Seq<Seq<char>>
    decreases pending.len(),
{
    if pending.len() == 0 {
        Seq::empty()
    } else {
        let (s, t, provided) = pending.last();
        trait_impl_errors(pending.drop_last(), traits) + if traits.contains_key(t) {
            missing_methods(t, s, traits[t].methods, provided)
        } else {
            seq!["Trait '"@ + t + "' is not defined (impl for '"@ + s + "')"@]
        }
    }
}

fn names_contain(names: &Vec<String>, name: &str) -> (r: bool)
    ensures
        r == texts(names@).contains(name@),
{
    let mut i: usize = 0;
    while i < names.len()
        invariant
            i <= names@.len(),
            forall|k: int| 0 <= k < i ==> names@[k]@ != name@,
        decreases names@.len() - i,
    {
        if str_eq(names[i].as_str(), name) {
            assert(texts(names@)[i as int] == name@);
            return true;
        }
        i = i + 1;
    }
    proof {
        if texts(names@).contains(name@) {
            let k = choose|k: int| 0 <= k < texts(names@).len() && texts(names@)[k] == name@;
            assert(names@[k]@ == name@);
        }
    }
    false
}

/// The type a type annotation denotes, with the names it uses that are
/// neither built in, a generic parameter in scope, nor a known struct, in
/// the order they are met. `vec<T>` (lower case) denotes its element type
/// `T`; any other generic instantiation denotes a struct of its base name;
/// a function type is `unknown`.
pub open spec fn ast_type(tp: TypeNode, generics: Seq<Seq<char>>, structs: Set<Seq<char>>) -> (TypeView, Seq<Seq<char>>)
    decreases tp,
{
    match tp {
        TypeNode::Generic { base, args } => {
            if base@ == "vec"@ && args@.len() > 0 {
                ast_type(args@[0], generics, structs)
            } else {
                (TypeView::Struct(base@), Seq::empty())
            }
        },
        TypeNode::Nullable(inner) => {
            let (t, unknown) = ast_type(*inner, generics, structs);
            (TypeView::Nullable(Box::new(t)), unknown)
        },
        TypeNode::Function => (TypeView::Unknown, Seq::empty()),
        TypeNode::Array { element, .. } => {
            let (t, unknown) = ast_type(*element, generics, structs);
            (TypeView::Array(Box::new(t)), unknown)
        },
        TypeNode::Basic(name) => {
            if name@ == "int"@ {
                (TypeView::Int, Seq::empty())
            } else if name@ == "float"@ {
                (TypeView::Float, Seq::empty())
            } else if name@ == "str"@ {
                (TypeView::Str, Seq::empty())
            } else if name@ == "bool"@ {
                (TypeView::Bool, Seq::empty())
            } else if generics.contains(name@) || structs.contains(name@) {
                (TypeView::Struct(name@), Seq::empty())
            } else {
                (TypeView::Unknown, seq![name@])
            }
        },
    }
}

/// The errors for unknown type names.
pub open spec fn unknown_type_errors(names: Seq<Seq<char>>) -> Seq<Seq<char>> {
    names.map_values(|n: Seq<char>| "Unknown type: "@ + n)
}

/// A byte of a C identifier: an ASCII letter or digit, or `_`.
pub open spec fn c_ident_byte(c: u8) -> bool {
    (48 <= c <= 57) || (65 <= c <= 90) || (97 <= c <= 122) || c == 95
}

/// White space allowed between a function's name and its `(`: space, tab,
/// carriage return, line feed, vertical tab, form feed.
pub open spec fn c_space(c: u8) -> bool {
    c == 32 || c == 9 || c == 13 || c == 10 || c == 11 || c == 12
}

/// From byte `j` on, `b` has `(` after nothing but white space.
pub open spec fn paren_follows(b: Seq<u8>, j: int) -> bool {
    exists|k: int| j <= k < b.len() && b[k] == 40 && forall|m: int| j <= m < k ==> c_space(b[m])
}

/// `name` is declared as a function at byte `i` of `b`: it occurs there,
/// not preceded by an identifier byte, and is followed by `(`.
pub open spec fn declared_at(b: Seq<u8>, name: Seq<u8>, i: int) -> bool {
    &&& bytes_match_at(b, name, i)
    &&& (i == 0 || !c_ident_byte(b[i - 1]))
    &&& paren_follows(b, i + name.len())
}

/// The header text declares the (non-empty) function name somewhere.
pub open spec fn header_declares(b: Seq<u8>, name: Seq<u8>) -> bool {
    name.len() > 0 && exists|i: int| declared_at(b, name, i)
}

/// A path made of one plain file name: not empty, neither `.` nor `..`,
/// and holding no `/`, `\\` or `:`, so that it reads as a single relative
/// component on every platform.
pub open spec fn plain_name(p: Seq<char>) -> bool {
    &&& p.len() > 0
    &&& p != "."@
    &&& p != ".."@
    &&& forall|i: int| 0 <= i < p.len() ==> #[trigger] p[i] != '/' && p[i] != '\\' && p[i] != ':'
}

/// The index of the last `.` in `p`, or -1.
pub open spec fn last_dot(p: Seq<char>) -> int
    decreases p.len(),
{
    if p.len() == 0 {
        -1
    } else if p.last() == '.' {
        p.len() - 1
    } else {
        last_dot(p.drop_last())
    }
}

/// The index of the last `/` in `p`, or -1.
pub open spec fn last_slash(p: Seq<char>) -> int
    decreases p.len(),
{
    if p.len() == 0 {
        -1
    } else if p.last() == '/' {
        p.len() - 1
    } else {
        last_slash(p.drop_last())
    }
}

/// A relative path whose `/`-separated components are all plain file names
/// (see `plain_name`), such as `src/main.gbl`.
pub open spec fn plain_path(p: Seq<char>) -> bool
    decreases p.len(),
{
    let k = last_slash(p);
    if k < 0 {
        plain_name(p)
    } else if 0 <= k < p.len() {
        plain_name(p.skip(k + 1)) && plain_path(p.take(k))
    } else {
        false
    }
}

/// A path from the root, `/` and then a relative path of plain names, such
/// as `/home/u/main.gbl`.
pub open spec fn rooted_plain_path(p: Seq<char>) -> bool {
    p.len() >= 2 && p[0] == '/' && plain_path(p.skip(1))
}

/// A path whose components are the same on every platform: relative, or from
/// the root, made of plain names separated by single `/`.
pub open spec fn ordinary_path(p: Seq<char>) -> bool {
    plain_path(p) || rooted_plain_path(p)
}

/// The directory of a path's last component: the root itself for a file
/// directly under it, else what precedes its last `/` (see `path_dir`).
pub open spec fn parent_dir(p: Seq<char>) -> Seq<char> {
    if last_slash(p) == 0 {
        "/"@
    } else {
        path_dir(p)
    }
}

/// The last component of a path: what follows its last `/`.
pub open spec fn last_component(p: Seq<char>) -> Seq<char> {
    p.skip(last_slash(p) + 1)
}

/// The path before its last component: what precedes its last `/` (empty
/// when it has none).
pub open spec fn path_dir(p: Seq<char>) -> Seq<char> {
    if last_slash(p) < 0 {
        Seq::empty()
    } else {
        p.take(last_slash(p))
    }
}

/// The stem of a file name: the whole name when it has no `.` or its only
/// `.` starts it, else the part before its last `.`.
pub open spec fn name_stem(p: Seq<char>) -> Seq<char> {
    if last_dot(p) <= 0 {
        p
    } else {
        p.take(last_dot(p))
    }
}

/// The file name of a path without its extension (`Path::file_stem`, as
/// text). How a path splits into components depends on the platform (`\\`
/// and prefixes such as `C:` count on Windows only), so only what its
/// documentation says of an ordinary path (`/`-separated plain names,
/// relative or from the root) is stated: the stem of its last component,
/// which is the whole name when it has no `.` or begins with its only `.`,
/// else the part before its last `.`.
#[verifier::external_body]
fn path_file_stem(path: &str) -> (r: Option<String>)
    ensures
        r is None ==> !ordinary_path(path@),
        r matches Some(s) ==> (ordinary_path(path@) ==> s@ == name_stem(last_component(path@))),
{
    std::path::Path::new(path).file_stem().and_then(|s| s.to_str()).map(|s| s.to_string())
}

/// The path without its last component (`Path::parent`, as text). For the
/// same reason as `path_file_stem`, only what its documentation says of an
/// ordinary path is stated: it is the path before its last `/`, the empty
/// path for a relative path of one component and the root for a file
/// directly under the root.
#[verifier::external_body]
pub(crate) fn path_parent(path: &str) -> (r: Option<String>)
    ensures
        r is None ==> !ordinary_path(path@),
        r matches Some(p) ==> (ordinary_path(path@) ==> p@ == parent_dir(path@)),
{
    std::path::Path::new(path).parent().and_then(|p| p.to_str()).map(|s| s.to_string())
}

/// The text of an optional string.
pub open spec fn opt_text(s: Option<String>) -> Option<Seq<char>> {
    match s {
        Some(t) => Some(t@),
        None => None,
    }
}

/// Where a module is looked for, in order: relative to the importing
/// module's directory `<dir>/<p>.gbl`, `<dir>/<p>/mod.gbl`,
/// `<dir>/<p>/__setup__.gbl`, `<dir>/lib/<p>.gbl`; then for each library
/// path `<lib>/<p>.gbl`, `<lib>/<p>/mod.gbl`, `<lib>/<p>/__setup__.gbl`,
/// `<lib>/src/<p>.gbl`, `<lib>/lib/<p>.gbl`; then `<p>.gbl`, `<p>/mod.gbl`,
/// `<p>/__setup__.gbl`, where `<p>` is the module's path parts joined by `/`.
pub open spec fn module_candidates(parts: Seq<Seq<char>>, base_dir: Option<Seq<char>>, lib_paths: Seq<Seq<char>>) -> Seq<Seq<char>> {
    let joined = join_seq(parts, "/"@);
    let relative = joined + ".gbl"@;
    let local = match base_dir {
        Some(d) => seq![
            d + "/"@ + relative,
            d + "/"@ + joined + "/mod.gbl"@,
            d + "/"@ + joined + "/__setup__.gbl"@,
            d + "/lib/"@ + relative,
        ],
        None => Seq::empty(),
    };
    local + lib_candidates(joined, lib_paths) + seq![relative, joined + "/mod.gbl"@, joined + "/__setup__.gbl"@]
}

/// The candidates under each library path, in order.
pub open spec fn lib_candidates(joined: Seq<char>, lib_paths: Seq<Seq<char>>) -> Seq<Seq<char>>
    decreases lib_paths.len(),
{
    if lib_paths.len() == 0 {
        Seq::empty()
    } else {
        let lp = lib_paths.last();
        let relative = joined + ".gbl"@;
        lib_candidates(joined, lib_paths.drop_last()) + seq![
            lp + "/"@ + relative,
            lp + "/"@ + joined + "/mod.gbl"@,
            lp + "/"@ + joined + "/__setup__.gbl"@,
            lp + "/src/"@ + relative,
            lp + "/lib/"@ + relative,
        ]
    }
}

fn push_text(v: &mut Vec<String>, s: String)
    ensures
        texts(final(v)@) == texts(old(v)@).push(s@),
{
    v.push(s);
    assert(texts(v@) =~= texts(old(v)@).push(s@));
}

fn concat3(a: &str, b: &str, c: &str) -> (r: String)
    ensures
        r@ == a@ + b@ + c@,
{
    let mut r = owned(a);
    r.append(b);
    r.append(c);
    r
}

/// `after` keeps every declaration of `before` in the same scope, and has
/// as many scopes (or one, the global scope, where `before` had none).
pub open spec fn scopes_kept(before: Seq<Map<Seq<char>, Symbol>>, after: Seq<Map<Seq<char>, Symbol>>) -> bool {
    &&& (after.len() == before.len() || (before.len() == 0 && after.len() == 1))
    &&& forall|i: int, k: Seq<char>|
        0 <= i < before.len() && #[trigger] before[i].contains_key(k) ==> after[i].contains_key(k) && after[i][k]
            == before[i][k]
}

proof fn lemma_scopes_kept_trans(a: Seq<Map<Seq<char>, Symbol>>, b: Seq<Map<Seq<char>, Symbol>>, c: Seq<Map<Seq<char>, Symbol>>)
    requires
        scopes_kept(a, b),
        scopes_kept(b, c),
    ensures
        scopes_kept(a, c),
{
    assert forall|i: int, k: Seq<char>| 0 <= i < a.len() && #[trigger] a[i].contains_key(k) implies c[i].contains_key(k) && c[i][k] == a[i][k] by {
        assert(b[i].contains_key(k));
    }
}

proof fn lemma_scopes_kept_refl(a: Seq<Map<Seq<char>, Symbol>>)
    ensures
        scopes_kept(a, a),
{
}

proof fn lemma_declared_keeps(s: Seq<Map<Seq<char>, Symbol>>, after: Seq<Map<Seq<char>, Symbol>>, idx: int, key: Seq<char>, accepted: bool)
    requires
        declared_in(with_global(s), after, idx, key, accepted),
    ensures
        scopes_kept(s, after),
        after[idx].contains_key(key),
{
    let b = with_global(s);
    assert forall|i: int, k: Seq<char>| 0 <= i < s.len() && #[trigger] s[i].contains_key(k) implies after[i].contains_key(k) && after[i][k] == s[i][k] by {
        assert(b[i] == s[i]);
        if i == idx && accepted {
            assert(after[idx] == b[idx].insert(key, after[idx][key]));
            if k != key {
                assert(after[idx][k] == b[idx][k]);
            }
        }
    }
}

/// The type of an optional annotation, `none` when there is none, with the
/// unknown names in it.
pub open spec fn opt_ast_type(t: Option<Box<TypeNode>>, generics: Seq<Seq<char>>, structs: Set<Seq<char>>) -> (TypeView, Seq<Seq<char>>) {
    match t {
        Some(b) => ast_type(*b, generics, structs),
        None => (TypeView::None_, Seq::empty()),
    }
}

/// The types of a struct's fields (a later field of the same name
/// replacing an earlier one), with the unknown names in them in order.
pub open spec fn field_types(fields: Seq<StructField>, generics: Seq<Seq<char>>, structs: Set<Seq<char>>) -> (Map<Seq<char>, TypeView>, Seq<Seq<char>>)
    decreases fields.len(),
{
    if fields.len() == 0 {
        (Map::empty(), Seq::empty())
    } else {
        let (m, unknown) = field_types(fields.drop_last(), generics, structs);
        let (t, more) = opt_ast_type(fields.last().field_type, generics, structs);
        (m.insert(fields.last().name@, t), unknown + more)
    }
}

/// The state after a struct definition is visited: unknown field types
/// reported, and the struct's fields recorded.
pub open spec fn struct_visited(v: AnalyzerView, node: StructDefinition) -> AnalyzerView {
    let (fields, unknown) = field_types(node.fields@, texts(node.generic_params@), v.struct_fields.dom());
    let w = with_errors(v, unknown_type_errors(unknown));
    AnalyzerView { struct_fields: w.struct_fields.insert(node.name@, fields), ..w }
}

proof fn lemma_unknown_errors_concat(a: Seq<Seq<char>>, b: Seq<Seq<char>>)
    ensures
        unknown_type_errors(a + b) == unknown_type_errors(a) + unknown_type_errors(b),
{
    assert(unknown_type_errors(a + b) =~= unknown_type_errors(a) + unknown_type_errors(b));
}

/// The fields an enum is lowered to: `_tag` of type int, and `_<i>` with
/// the payload's type for the i-th variant (counting from 0) if it has a
/// payload; with the unknown names in the payload types in order.
pub open spec fn variant_fields(variants: Seq<EnumVariant>, generics: Seq<Seq<char>>, structs: Set<Seq<char>>) -> (Map<Seq<char>, TypeView>, Seq<Seq<char>>)
    decreases variants.len(),
{
    if variants.len() == 0 {
        (map!["_tag"@ => TypeView::Int], Seq::empty())
    } else {
        let (m, unknown) = variant_fields(variants.drop_last(), generics, structs);
        match variants.last().payload_type {
            Some(p) => {
                let (t, more) = ast_type(*p, generics, structs);
                (m.insert("_"@ + nat_digits((variants.len() - 1) as nat), t), unknown + more)
            },
            None => (m, unknown),
        }
    }
}

/// The state after an enum definition is visited: unknown payload types
/// reported, and the enum recorded as the struct it is lowered to.
pub open spec fn enum_visited(v: AnalyzerView, node: EnumDefinition) -> AnalyzerView {
    let (fields, unknown) = variant_fields(node.variants@, texts(node.generic_params@), v.struct_fields.dom());
    let w = with_errors(v, unknown_type_errors(unknown));
    AnalyzerView { struct_fields: w.struct_fields.insert(node.name@, fields), ..w }
}

/// The names an enum definition declares: the enum, and each variant's
/// constructor both in the enum's namespace and as `<enum>::<variant>` in
/// the current module.
pub open spec fn enum_declares(scope: Map<Seq<char>, Symbol>, module: Seq<char>, node: EnumDefinition) -> bool {
    &&& scope.contains_key(node.name@)
    &&& forall|j: int| 0 <= j < node.variants@.len() ==> {
        &&& scope.contains_key(node.name@ + "."@ + (#[trigger] node.variants@[j]).name@)
        &&& scope.contains_key(module + "."@ + node.name@ + "::"@ + node.variants@[j].name@)
    }
}

/// The item is left out of the build: a release build leaves out items
/// marked `#[debug]`.
pub open spec fn skipped_in(mode: BuildMode, attrs: Seq<String>) -> bool {
    mode == BuildMode::Release && texts(attrs).contains("debug"@)
}

/// The generic parameters in scope followed by those of `extra` not among
/// them yet.
pub open spec fn combine_generics(scope: Seq<Seq<char>>, extra: Seq<Seq<char>>) -> Seq<Seq<char>>
    decreases extra.len(),
{
    if extra.len() == 0 {
        scope
    } else {
        let c = combine_generics(scope, extra.drop_last());
        if c.contains(extra.last()) {
            c
        } else {
            c.push(extra.last())
        }
    }
}

/// A trait definition as the analyzer records it: each method with its
/// parameter count and whether it is marked `#[dynamic]`.
pub open spec fn trait_view_of(node: TraitDefinition) -> TraitView {
    TraitView {
        name: node.name@,
        methods: node.methods@.map_values(
            |m: TraitMethod| (m.name@, m.parameters@.len(), texts(m.attributes@).contains("dynamic"@)),
        ),
        generic_params: texts(node.generic_params@),
    }
}

/// The state after a function's return type is read with `generics` in
/// scope: its unknown names reported.
pub open spec fn signature_read(v: AnalyzerView, f: Function, generics: Seq<Seq<char>>) -> AnalyzerView {
    with_errors(v, unknown_type_errors(opt_ast_type(f.return_type, generics, v.struct_fields.dom()).1))
}

/// The function an `impl` item defines.
pub open spec fn item_function(item: ImplItem) -> Function {
    match item {
        ImplItem::Method(f) => f,
        ImplItem::Convert(f) => f,
    }
}

/// A method's identity for duplicate detection: its type as written, its
/// name and its number of parameters.
pub open spec fn method_key(node: ImplBlock, f: Function) -> (Seq<char>, Seq<char>, nat) {
    (node.struct_name@, f.name@, match f.parameters {
        Some(p) => p@.len(),
        None => 0,
    })
}

/// The signatures of an `impl` block's items, declared in order with
/// `owner` as the block's type: each method not left out of the build and
/// not declared before (same type, name and arity) is recorded and declared
/// in the module and in the type's namespace, its return type read with the
/// block's and the method's generic parameters in scope. Gives the state and
/// the keys declared.
pub open spec fn impl_signatures(v: AnalyzerView, node: ImplBlock, items: Seq<ImplItem>, owner: Seq<char>) -> (AnalyzerView, Map<Seq<char>, Decl>)
    decreases items.len(),
{
    if items.len() == 0 {
        (v, Map::empty())
    } else {
        let (w, keys) = impl_signatures(v, node, items.drop_last(), owner);
        let f = item_function(items.last());
        let key = method_key(node, f);
        if skipped_in(w.build_mode, f.attributes@) || w.impl_methods.contains(key) {
            (w, keys)
        } else {
            let g = combine_generics(w.generics, texts(f.generic_params@));
            let ret = opt_ast_type(f.return_type, g, w.struct_fields.dom()).0;
            (
                signature_read(AnalyzerView { impl_methods: w.impl_methods.push(key), ..w }, f, g),
                sig_decls(w.module, Some(owner), f.name@, ret).union_prefer_right(keys),
            )
        }
    }
}

/// The signatures of `extern` functions, declared in order in the module.
pub open spec fn extern_signatures(v: AnalyzerView, fs: Seq<Function>) -> (AnalyzerView, Map<Seq<char>, Decl>)
    decreases fs.len(),
{
    if fs.len() == 0 {
        (v, Map::empty())
    } else {
        let (w, keys) = extern_signatures(v, fs.drop_last());
        let ret = opt_ast_type(fs.last().return_type, w.generics, w.struct_fields.dom()).0;
        (signature_read(w, fs.last(), w.generics), sig_decls(w.module, None, fs.last().name@, ret).union_prefer_right(keys))
    }
}

/// The declarations of an enum's variants, made in order after `acc`:
/// each variant's constructor, returning the enum, in the enum's namespace
/// and as `<enum>::<variant>` in the module.
pub open spec fn variant_decls(
    acc: Map<Seq<char>, Decl>,
    module: Seq<char>,
    ename: Seq<char>,
    vs: Seq<EnumVariant>,
) -> Map<Seq<char>, Decl>
    decreases vs.len(),
{
    if vs.len() == 0 {
        acc
    } else {
        let a = variant_decls(acc, module, ename, vs.drop_last());
        let v = vs.last();
        let ret = TypeView::Struct(ename);
        first_wins(
            first_wins(a, ename + "."@ + v.name@, fn_decl(v.name@, ret, ename)),
            module + "."@ + ename + "::"@ + v.name@,
            fn_decl(ename + "::"@ + v.name@, ret, module),
        )
    }
}

/// What an enum definition declares: its name, then its variants.
pub open spec fn enum_decls(module: Seq<char>, node: EnumDefinition) -> Map<Seq<char>, Decl> {
    variant_decls(map![node.name@ => Decl::Module], module, node.name@, node.variants@)
}

/// What declaring a function's signature declares: the function in the
/// module, then, for a method, in its type's namespace.
pub open spec fn sig_decls(module: Seq<char>, owner: Option<Seq<char>>, name: Seq<char>, ret: TypeView) -> Map<Seq<char>, Decl> {
    let d = map![module + "."@ + name => fn_decl(name, ret, module)];
    match owner {
        Some(o) => first_wins(d, o + "."@ + name, fn_decl(name, ret, o)),
        None => d,
    }
}

/// What pre-declaring one top-level statement's signature does: the state
/// after it and the keys it declares in the global scope.
pub open spec fn signature_step(v: AnalyzerView, st: Statement) -> (AnalyzerView, Map<Seq<char>, Decl>) {
    match st {
        Statement::Function(f) => if skipped_in(v.build_mode, f.attributes@) {
            (v, Map::empty())
        } else {
            let g = combine_generics(v.generics, texts(f.generic_params@));
            (signature_read(v, *f, g), sig_decls(v.module, None, f.name@, opt_ast_type(f.return_type, g, v.struct_fields.dom()).0))
        },
        Statement::StructDefinition(sd) => (struct_visited(v, sd), map![sd.name@ => Decl::Module]),
        Statement::EnumDefinition(ed) => (enum_visited(v, ed), enum_decls(v.module, ed)),
        Statement::TraitDefinition(td) => (AnalyzerView { traits: v.traits.insert(td.name@, trait_view_of(td)), ..v }, Map::empty()),
        Statement::ImplBlock(ib) => {
            let owner = decode_utf8(bytes_before(encode_utf8(ib.struct_name@), 60));
            let inner = AnalyzerView { impl_struct: Some(owner), generics: texts(ib.generic_params@), ..v };
            let (w, keys) = impl_signatures(inner, ib, ib.items@, owner);
            (AnalyzerView { impl_struct: v.impl_struct, generics: v.generics, ..w }, keys)
        },
        Statement::ExternBlock(eb) => extern_signatures(v, eb.functions@),
        _ => (v, Map::empty()),
    }
}

/// Pre-declaring the signatures of top-level statements in order: the
/// state after them and the keys they declare.
pub open spec fn signatures(v: AnalyzerView, stmts: Seq<Statement>) -> (AnalyzerView, Map<Seq<char>, Decl>)
    decreases stmts.len(),
{
    if stmts.len() == 0 {
        (v, Map::empty())
    } else {
        let (w, keys) = signatures(v, stmts.drop_last());
        let (x, more) = signature_step(w, stmts.last());
        (x, more.union_prefer_right(keys))
    }
}

/// What a declaration puts under its key in the global scope: a function
/// (its name, return type and module, as `Environment::declare_function`
/// makes it), a module name (as `Environment::declare_module` makes it), or
/// a name copied from another module by `from ... import` or `export`,
/// whose symbol depends on that module and is not described.
pub enum Decl {
    Function { name: Seq<char>, ret: TypeView, module: Seq<char> },
    Module,
    Copied,
}

/// The symbol `sym`, under key `key`, is what declaration `d` makes.
pub open spec fn describes(sym: Symbol, key: Seq<char>, d: Decl) -> bool {
    match d {
        Decl::Function { name, ret, module } => {
            &&& sym.name@ == name
            &&& sym.symbol_type == SymbolType::Function
            &&& sym.data_type@ == ret
            &&& sym.scope_level == 0
            &&& sym.module_name@ == module
            &&& !sym.is_mut
            &&& !sym.is_array
            &&& sym.dimensions@.len() == 0
        },
        Decl::Module => {
            &&& sym.name@ == key
            &&& sym.symbol_type == SymbolType::Module
            &&& sym.data_type@ == TypeView::None_
            &&& sym.scope_level == 0
            &&& sym.module_name@ == Seq::<char>::empty()
            &&& !sym.is_mut
            &&& !sym.is_array
            &&& sym.dimensions@.len() == 0
        },
        Decl::Copied => true,
    }
}

/// The function `name` of `module` returning `ret`, under `<module>.<name>`.
pub open spec fn fn_decl(name: Seq<char>, ret: TypeView, module: Seq<char>) -> Decl {
    Decl::Function { name, ret, module }
}

/// The declarations `decls` made in order, each refused when its key is
/// already declared: an earlier one under a key wins.
pub open spec fn first_wins(decls: Map<Seq<char>, Decl>, key: Seq<char>, d: Decl) -> Map<Seq<char>, Decl> {
    if decls.contains_key(key) {
        decls
    } else {
        decls.insert(key, d)
    }
}

/// The scopes `after` are the scopes `before` (a global scope created if
/// there was none) with declarations `decls` made in the global scope:
/// every symbol already there stays; each key `decls` holds that was not
/// there now holds what its declaration makes (a copied name may also be
/// left out); and nothing else is added or changed, in any scope.
pub open spec fn declared_as(
    before: Seq<Map<Seq<char>, Symbol>>,
    after: Seq<Map<Seq<char>, Symbol>>,
    decls: Map<Seq<char>, Decl>,
) -> bool {
    let g = with_global(before);
    let h = with_global(after);
    &&& h.len() == g.len()
    &&& forall|i: int| 1 <= i < g.len() ==> #[trigger] h[i] == g[i]
    &&& forall|k: Seq<char>| #[trigger] g[0].contains_key(k) ==> h[0].contains_key(k) && h[0][k] == g[0][k]
    &&& forall|k: Seq<char>|
        !g[0].contains_key(k) && #[trigger] h[0].contains_key(k) ==> decls.contains_key(k) && describes(h[0][k], k, decls[k])
    &&& forall|k: Seq<char>| #[trigger] decls.contains_key(k) && !(decls[k] is Copied) ==> h[0].contains_key(k)
}

proof fn lemma_declared_as_none(a: Seq<Map<Seq<char>, Symbol>>)
    ensures
        declared_as(a, a, Map::empty()),
{
}

proof fn lemma_declared_as_trans(
    a: Seq<Map<Seq<char>, Symbol>>,
    b: Seq<Map<Seq<char>, Symbol>>,
    c: Seq<Map<Seq<char>, Symbol>>,
    d1: Map<Seq<char>, Decl>,
    d2: Map<Seq<char>, Decl>,
)
    requires
        declared_as(a, b, d1),
        declared_as(b, c, d2),
    ensures
        declared_as(a, c, d2.union_prefer_right(d1)),
{
    let ga = with_global(a);
    let gb = with_global(b);
    let gc = with_global(c);
    let d = d2.union_prefer_right(d1);
    assert forall|i: int| 1 <= i < ga.len() implies #[trigger] gc[i] == ga[i] by {
        assert(gb[i] == ga[i]);
        assert(gc[i] == gb[i]);
    }
    assert forall|k: Seq<char>| #[trigger] ga[0].contains_key(k) implies gc[0].contains_key(k) && gc[0][k] == ga[0][k] by {
        assert(gb[0].contains_key(k));
    }
    assert forall|k: Seq<char>| !ga[0].contains_key(k) && #[trigger] gc[0].contains_key(k) implies d.contains_key(k) && describes(
        gc[0][k],
        k,
        d[k],
    ) by {
        if gb[0].contains_key(k) {
            assert(d1.contains_key(k));
        } else {
            assert(d2.contains_key(k));
            if d1.contains_key(k) {
                assert(!(d1[k] is Copied) ==> gb[0].contains_key(k));
            }
        }
    }
    assert forall|k: Seq<char>| #[trigger] d.contains_key(k) && !(d[k] is Copied) implies gc[0].contains_key(k) by {
        if d1.contains_key(k) {
            assert(gb[0].contains_key(k));
        } else {
            assert(d2.contains_key(k));
        }
    }
}

proof fn lemma_declared_as_then(
    a: Seq<Map<Seq<char>, Symbol>>,
    b: Seq<Map<Seq<char>, Symbol>>,
    c: Seq<Map<Seq<char>, Symbol>>,
    d1: Map<Seq<char>, Decl>,
    key: Seq<char>,
    d: Decl,
)
    requires
        declared_as(a, b, d1),
        declared_as(b, c, map![key => d]),
    ensures
        declared_as(a, c, first_wins(d1, key, d)),
{
    lemma_declared_as_trans(a, b, c, d1, map![key => d]);
    assert(map![key => d].union_prefer_right(d1) =~= first_wins(d1, key, d));
}

/// A declared key that is not a copied name is in the global scope.
proof fn lemma_declared_as_has(a: Seq<Map<Seq<char>, Symbol>>, b: Seq<Map<Seq<char>, Symbol>>, d: Map<Seq<char>, Decl>, k: Seq<char>)
    requires
        declared_as(a, b, d),
        d.contains_key(k),
        !(d[k] is Copied),
    ensures
        b.len() > 0,
        b[0].contains_key(k),
{
    assert(with_global(b)[0].contains_key(k));
}

proof fn lemma_declared_in_as(
    s: Seq<Map<Seq<char>, Symbol>>,
    after: Seq<Map<Seq<char>, Symbol>>,
    key: Seq<char>,
    accepted: bool,
    d: Decl,
)
    requires
        declared_in(with_global(s), after, 0, key, accepted),
        accepted ==> describes(after[0][key], key, d),
    ensures
        declared_as(s, after, map![key => d]),
{
    let g = with_global(s);
    assert(with_global(after) == after);
    assert forall|k: Seq<char>| #[trigger] g[0].contains_key(k) implies after[0].contains_key(k) && after[0][k] == g[0][k] by {
        if accepted {
            assert(after[0] == g[0].insert(key, after[0][key]));
        }
    }
    assert forall|k: Seq<char>| !g[0].contains_key(k) && #[trigger] after[0].contains_key(k) implies map![key => d].contains_key(k)
        && describes(after[0][k], k, map![key => d][k]) by {
        if accepted {
            assert(after[0] == g[0].insert(key, after[0][key]));
        }
    }
}


proof fn lemma_scopes_kept_key(a: Seq<Map<Seq<char>, Symbol>>, b: Seq<Map<Seq<char>, Symbol>>, k: Seq<char>)
    requires
        scopes_kept(a, b),
        a.len() > 0,
        a[0].contains_key(k),
    ensures
        b[0].contains_key(k),
{
    assert(a[0].contains_key(k));
}

/// Reading a signature does the same whatever the scopes are.
proof fn lemma_signature_read_scopes(v: AnalyzerView, w: AnalyzerView, f: Function, g: Seq<Seq<char>>)
    requires
        v == (AnalyzerView { scopes: v.scopes, ..w }),
    ensures
        signature_read(v, f, g) == (AnalyzerView { scopes: v.scopes, ..signature_read(w, f, g) }),
{
    let errs = unknown_type_errors(opt_ast_type(f.return_type, g, v.struct_fields.dom()).1);
    lemma_with_errors_frame(v, errs);
    lemma_with_errors_frame(w, errs);
    lemma_with_errors_same(v, w, errs);
}

// ==================== binary expressions ====================

/// The field `name` of the struct whose `impl` block is being analysed.
pub open spec fn is_impl_field(v: AnalyzerView, name: Seq<char>) -> bool {
    match v.impl_struct {
        Some(s) => v.struct_fields.contains_key(s) && v.struct_fields[s].contains_key(name),
        None => false,
    }
}

/// The expression an array index expression indexes at its innermost:
/// `a` for `a[i][j]` (an index expression without an array stays as it is).
pub open spec fn index_base(e: Expression) -> Expression
    decreases e,
{
    match e {
        Expression::ArrayIndex { array: Some(a), .. } => index_base(*a),
        _ => e,
    }
}

/// Whether the left side of `=` may be assigned, and the errors found on
/// the way: a field of the `impl`'s struct or a mutable variable; `self.`
/// a field of it; an element of a mutable array (or of a field).
pub open spec fn assign_target(v: AnalyzerView, left: Option<Expression>) -> (bool, Seq<Seq<char>>) {
    match left {
        Some(Expression::Identifier(name)) => if is_impl_field(v, name@) {
            (true, Seq::empty())
        } else {
            match lookup_in(v.scopes, name@) {
                Some(sym) => if sym.is_mut {
                    (true, Seq::empty())
                } else {
                    (false, seq!["Cannot assign to constant variable '"@ + name@ + "'"@])
                },
                None => (false, Seq::empty()),
            }
        },
        Some(Expression::MemberAccess { object: Some(obj), member }) => match *obj {
            Expression::Identifier(o) => (o@ == "self"@ && is_impl_field(v, member@), Seq::empty()),
            _ => (false, Seq::empty()),
        },
        Some(Expression::ArrayIndex { array, index }) => match index_base(Expression::ArrayIndex { array, index }) {
            Expression::Identifier(name) => if is_impl_field(v, name@) {
                (true, Seq::empty())
            } else {
                match lookup_in(v.scopes, name@) {
                    Some(sym) => if !sym.is_mut {
                        (false, seq!["Cannot assign to constant array '"@ + name@ + "'"@])
                    } else if !sym.is_array {
                        (false, seq!["Cannot index non-array variable '"@ + name@ + "'"@])
                    } else {
                        (true, Seq::empty())
                    },
                    None => (false, Seq::empty()),
                }
            },
            _ => (false, Seq::empty()),
        },
        _ => (false, Seq::empty()),
    }
}

/// A value of type `source` may be stored where `target` is expected.
pub open spec fn compatible(target: TypeView, source: TypeView) -> bool {
    target == source || (target == TypeView::Float && source == TypeView::Int)
}

/// `int` or `float`.
pub open spec fn numeric(t: TypeView) -> bool {
    t == TypeView::Int || t == TypeView::Float
}

/// The type of an operator applied to values of a struct type: the return
/// type of the struct's trait method for it (`<Struct>::add` for `+`, ...),
/// or an error when the struct has none.
pub open spec fn struct_operator(v: AnalyzerView, sn: Seq<char>, op: Seq<char>) -> (TypeView, Seq<Seq<char>>) {
    let m = operator_method(op)->0;
    match lookup_in(v.scopes, sn + "::"@ + m) {
        Some(sym) => (sym.data_type@, Seq::empty()),
        None => (
            TypeView::Unknown,
            seq![
                "Type '"@ + sn + "' does not implement operator '"@ + op + "' (method '"@ + sn + "::"@ + m
                    + "' not found)"@,
            ],
        ),
    }
}

/// Arithmetic on two numbers reports nothing, and its type is `float`
/// exactly when one operand is a `float` (whichever side), else `int`; so
/// swapping the operands does not change it.
pub proof fn lemma_numeric_arithmetic(
    v: AnalyzerView,
    op: Seq<char>,
    left: Option<Expression>,
    right: Option<Expression>,
    lt: TypeView,
    rt: TypeView,
)
    requires
        op == "+"@ || op == "-"@ || op == "*"@ || op == "/"@ || op == "%"@,
        numeric(lt),
        numeric(rt),
    ensures
        binary_outcome(v, op, left, right, lt, rt).1 == Seq::<Seq<char>>::empty(),
        (binary_outcome(v, op, left, right, lt, rt).0 == TypeView::Float) == (lt == TypeView::Float || rt == TypeView::Float),
        binary_outcome(v, op, left, right, lt, rt).0 == TypeView::Float || binary_outcome(v, op, left, right, lt, rt).0
            == TypeView::Int,
        binary_outcome(v, op, left, right, lt, rt).0 == binary_outcome(v, op, right, left, rt, lt).0,
{
    lemma_operator_texts();
    assert(op != "="@);
    assert(lt != TypeView::Str && rt != TypeView::Str);
    let t = if lt == TypeView::Float || rt == TypeView::Float {
        TypeView::Float
    } else {
        TypeView::Int
    };
    assert(binary_outcome(v, op, left, right, lt, rt) == (t, Seq::<Seq<char>>::empty()));
    assert(binary_outcome(v, op, right, left, rt, lt) == (t, Seq::<Seq<char>>::empty()));
}

/// The type of a binary expression whose operands have types `lt` and
/// `rt`, and the errors reported, in order.
pub open spec fn binary_outcome(
    v: AnalyzerView,
    op: Seq<char>,
    left: Option<Expression>,
    right: Option<Expression>,
    lt: TypeView,
    rt: TypeView,
) -> (TypeView, Seq<Seq<char>>) {
    if op == "="@ {
        let (ok, errs) = assign_target(v, left);
        if !ok {
            (TypeView::Unknown, errs.push("Left side of assignment must be a mutable variable or array element"@))
        } else if (right matches Some(Expression::Identifier(n)) && n@ == "__new_array"@) {
            (lt, errs)
        } else if (right matches Some(Expression::NullLiteral)) && rt == TypeView::None_ && lt is Struct && v.generics.contains(
            lt->Struct_0,
        ) {
            (lt, errs)
        } else if !compatible(lt, rt) {
            (TypeView::Unknown, errs.push("Cannot assign "@ + type_text(rt) + " to "@ + type_text(lt)))
        } else {
            (lt, errs)
        }
    } else if op == "+"@ || op == "-"@ || op == "*"@ || op == "/"@ || op == "%"@ {
        if op == "+"@ && (lt == TypeView::Str || rt == TypeView::Str) {
            (TypeView::Str, Seq::empty())
        } else if numeric(lt) && numeric(rt) {
            (if lt == TypeView::Float || rt == TypeView::Float {
                TypeView::Float
            } else {
                TypeView::Int
            }, Seq::empty())
        } else if lt is Struct {
            struct_operator(v, lt->Struct_0, op)
        } else {
            (TypeView::Unknown, seq!["Operator '"@ + op + "' requires numeric operands"@])
        }
    } else if op == "+="@ || op == "-="@ || op == "*="@ || op == "/="@ {
        match left {
            Some(Expression::Identifier(name)) => {
                let (ok, errs) = if is_impl_field(v, name@) {
                    (true, Seq::<Seq<char>>::empty())
                } else {
                    match lookup_in(v.scopes, name@) {
                        Some(sym) => if sym.is_mut {
                            (true, Seq::empty())
                        } else {
                            (false, seq!["Cannot assign to constant variable '"@ + name@ + "'"@])
                        },
                        None => (false, seq!["Undeclared variable '"@ + name@ + "'"@]),
                    }
                };
                if !ok {
                    (TypeView::Unknown, if name@.len() == 0 {
                        errs.push("Left side of compound assignment must be a mutable variable"@)
                    } else {
                        errs
                    })
                } else if op == "+="@ && (lt == TypeView::Str || rt == TypeView::Str) {
                    (TypeView::Str, errs)
                } else if !numeric(lt) || !numeric(rt) {
                    (TypeView::Unknown, errs.push("Operator '"@ + op + "' requires numeric operands"@))
                } else {
                    (lt, errs)
                }
            },
            Some(_) => (TypeView::Unknown, seq!["Left side of compound assignment must be a variable"@]),
            None => (TypeView::Unknown, seq!["Left side of compound assignment must be a mutable variable"@]),
        }
    } else if op == "=="@ || op == "!="@ || op == "<"@ || op == ">"@ || op == "<="@ || op == ">="@ {
        if lt is Nullable || rt is Nullable || lt == TypeView::None_ || rt == TypeView::None_ {
            if op == "=="@ || op == "!="@ {
                (TypeView::Bool, Seq::empty())
            } else {
                (TypeView::Unknown, seq!["Cannot compare "@ + type_text(lt) + " and "@ + type_text(rt) + " with '"@ + op + "'"@])
            }
        } else if numeric(lt) || lt == TypeView::Bool {
            (TypeView::Bool, if !compatible(lt, rt) && !compatible(rt, lt) {
                seq!["Cannot compare "@ + type_text(lt) + " and "@ + type_text(rt)]
            } else {
                Seq::empty()
            })
        } else if lt is Struct {
            struct_operator(v, lt->Struct_0, op)
        } else {
            (TypeView::Bool, seq!["Cannot compare "@ + type_text(lt) + " and "@ + type_text(rt)])
        }
    } else if op == "&&"@ || op == "||"@ {
        (TypeView::Bool, if lt != TypeView::Bool || rt != TypeView::Bool {
            seq!["Logical operators require boolean operands"@]
        } else {
            Seq::empty()
        })
    } else if op == ".."@ {
        (TypeView::Struct("Range"@), Seq::empty())
    } else {
        (TypeView::Unknown, seq!["Unknown operator: "@ + op])
    }
}

/// The state after a binary expression is typed: its errors reported, its
/// type pushed, and for a range `a..b` the struct `Range` known (without
/// fields) if it was not.
pub open spec fn binary_visited(
    v: AnalyzerView,
    op: Seq<char>,
    left: Option<Expression>,
    right: Option<Expression>,
    lt: TypeView,
    rt: TypeView,
) -> AnalyzerView {
    let (t, errs) = binary_outcome(v, op, left, right, lt, rt);
    let w = with_errors(v, errs);
    AnalyzerView {
        types: w.types.push(t),
        struct_fields: if op == ".."@ && !w.struct_fields.contains_key("Range"@) {
            w.struct_fields.insert("Range"@, Map::empty())
        } else {
            w.struct_fields
        },
        ..w
    }
}

/// `after` is `before` with the errors of typing the binary expression
/// reported, and `t` is its type.
pub open spec fn binary_typed(
    before: AnalyzerView,
    after: AnalyzerView,
    t: TypeView,
    op: Seq<char>,
    left: Option<Expression>,
    right: Option<Expression>,
    lt: TypeView,
    rt: TypeView,
) -> bool {
    let (t2, errs) = binary_outcome(before, op, left, right, lt, rt);
    t == t2 && after == with_errors(before, errs)
}

// ==================== function calls ====================

/// A name without its generic arguments: the part before the first `<`.
pub open spec fn bare_name(s: Seq<char>) -> Seq<char> {
    decode_utf8(bytes_before(encode_utf8(s), 60))
}

/// The part of a name after its last `::` (all of it when there is none).
pub open spec fn last_name(s: Seq<char>) -> Seq<char> {
    decode_utf8(last_path_segment(encode_utf8(s)))
}

/// The type of the symbol `name` resolves to.
pub open spec fn symbol_type_of(v: AnalyzerView, name: Seq<char>) -> Option<TypeView> {
    match lookup_in(v.scopes, name) {
        Some(s) => Some(s.data_type@),
        None => None,
    }
}

/// What a call's callee names: the function, the module (or the object)
/// it is looked up in, and the errors found on the way. `object_type` is the
/// type of the object of a method call whose object is not a plain name.
/// A dotted call on a module (`io.println`) is refused: `::` is the module
/// separator.
pub open spec fn call_target(v: AnalyzerView, callee: Option<Expression>, object_type: TypeView) -> (
    Seq<char>,
    Seq<char>,
    Seq<Seq<char>>,
) {
    match callee {
        Some(Expression::Identifier(n)) => (n@, v.module, Seq::empty()),
        Some(Expression::PathAccess { path, member }) => (member@, join_seq(texts(path@), "::"@), Seq::empty()),
        Some(Expression::MemberAccess { object: Some(obj), member }) => match *obj {
            Expression::Identifier(o) => {
                let is_module = lookup_in(v.scopes, o@) matches Some(s) && s.symbol_type == SymbolType::Module;
                if is_module && o@ != "self"@ {
                    (
                        member@,
                        v.module,
                        seq![
                            "Use '::' for module access: '"@ + o@ + "::"@ + member@ + "' instead of '"@ + o@
                                + "."@ + member@ + "'"@,
                        ],
                    )
                } else if o@ == "self"@ {
                    (member@, match v.impl_struct {
                        Some(sn) => sn,
                        None => o@,
                    }, Seq::empty())
                } else {
                    (member@, o@, Seq::empty())
                }
            },
            _ => (member@, match object_type {
                TypeView::Struct(sn) => sn,
                _ => v.module,
            }, Seq::empty()),
        },
        _ => (Seq::empty(), v.module, Seq::empty()),
    }
}

/// A call names a struct, and so constructs one: the struct's name.
pub open spec fn constructed_struct(v: AnalyzerView, func: Seq<char>) -> Option<Seq<char>> {
    let bare = bare_name(func);
    if v.struct_fields.contains_key(bare) {
        Some(bare)
    } else if v.struct_fields.contains_key(last_name(bare)) {
        Some(last_name(bare))
    } else {
        None
    }
}

/// `Type::new(..)` on a struct or a generic parameter in scope.
pub open spec fn is_static_new(v: AnalyzerView, func: Seq<char>, module: Seq<char>) -> bool {
    func == "new"@ && (v.struct_fields.contains_key(bare_name(module)) || v.generics.contains(bare_name(module)))
}

/// The call is `range::new(..)` or `Range::new(..)` and no earlier rule
/// typed it.
pub open spec fn is_range_new(v: AnalyzerView, func: Seq<char>, module: Seq<char>) -> bool {
    &&& constructed_struct(v, func) is None
    &&& !is_static_new(v, func, module)
    &&& func == "new"@
    &&& (module == "range"@ || module == "Range"@)
}

/// The name a call is looked up under: the module (its alias resolved,
/// without generic arguments) and the function, except that a call on a
/// variable is looked up in the current module.
pub open spec fn call_lookup_name(v: AnalyzerView, func: Seq<char>, module: Seq<char>) -> Seq<char> {
    let resolved = if v.module_aliases.contains_key(module) {
        v.module_aliases[module]
    } else {
        module
    };
    let rb = bare_name(resolved);
    if rb != v.module && (lookup_in(v.scopes, rb) matches Some(s) && s.symbol_type != SymbolType::Module) {
        v.module + "::"@ + func
    } else {
        rb + "::"@ + func
    }
}

/// The built-in methods of arrays (`len`, `add`) and strings (`len`,
/// `contains`, `trim`, `replace`) called on a variable.
pub open spec fn builtin_method_type(v: AnalyzerView, func: Seq<char>, module: Seq<char>) -> Option<TypeView> {
    if module == v.module {
        None
    } else {
        match lookup_in(v.scopes, module) {
            Some(var) => if var.is_array && func == "len"@ {
                Some(TypeView::Int)
            } else if var.is_array && func == "add"@ {
                Some(TypeView::None_)
            } else if var.data_type@ == TypeView::Str {
                if func == "len"@ {
                    Some(TypeView::Int)
                } else if func == "contains"@ {
                    Some(TypeView::Bool)
                } else if func == "trim"@ || func == "replace"@ {
                    Some(TypeView::Str)
                } else {
                    None
                }
            } else {
                None
            },
            None => None,
        }
    }
}

/// A method of the struct a variable (or `self`) holds: looked up as
/// `<Struct>::<method>`, then by the method's name alone, then in the
/// current module, then under the struct's name without generic arguments.
pub open spec fn struct_method_type(v: AnalyzerView, func: Seq<char>, module: Seq<char>) -> Option<TypeView> {
    let dispatch = if module == "self"@ {
        v.impl_struct
    } else {
        match lookup_in(v.scopes, module) {
            Some(s) => match s.data_type@ {
                TypeView::Struct(sn) => Some(sn),
                _ => None,
            },
            None => None,
        }
    };
    match dispatch {
        Some(sn) => if symbol_type_of(v, sn + "::"@ + func) is Some {
            symbol_type_of(v, sn + "::"@ + func)
        } else if symbol_type_of(v, func) is Some {
            symbol_type_of(v, func)
        } else if symbol_type_of(v, v.module + "::"@ + func) is Some {
            symbol_type_of(v, v.module + "::"@ + func)
        } else {
            symbol_type_of(v, bare_name(sn) + "::"@ + func)
        },
        None => None,
    }
}

/// The type of a call of `func` in `module`, and the errors it reports.
pub open spec fn call_type(v: AnalyzerView, func: Seq<char>, module: Seq<char>) -> (TypeView, Seq<Seq<char>>) {
    match constructed_struct(v, func) {
        Some(sn) => (TypeView::Struct(sn), Seq::empty()),
        None => if is_static_new(v, func, module) {
            (TypeView::Struct(bare_name(module)), Seq::empty())
        } else if func == "new"@ && (module == "range"@ || module == "Range"@) {
            (TypeView::Struct("Range"@), Seq::empty())
        } else if (func == "file"@ || func == "line"@) && module == v.module {
            (if func == "file"@ {
                TypeView::Str
            } else {
                TypeView::Int
            }, Seq::empty())
        } else {
            let full = call_lookup_name(v, func, module);
            if symbol_type_of(v, full) is Some {
                (symbol_type_of(v, full)->0, Seq::empty())
            } else if symbol_type_of(v, func) is Some {
                (symbol_type_of(v, func)->0, Seq::empty())
            } else if builtin_method_type(v, func, module) is Some {
                (builtin_method_type(v, func, module)->0, Seq::empty())
            } else if struct_method_type(v, func, module) is Some {
                (struct_method_type(v, func, module)->0, Seq::empty())
            } else {
                (TypeView::Unknown, seq!["Undeclared function: '"@ + full + "'"@])
            }
        },
    }
}

/// The state after a call is typed. A lambda called in place has the type
/// its body returns (`callee_type`). Otherwise the callee's errors and the
/// call's are reported and its type pushed; `range::new` makes the struct
/// `Range` known (without fields) if it was not.
pub open spec fn call_visited(v: AnalyzerView, callee: Option<Expression>, callee_type: TypeView) -> AnalyzerView {
    match callee {
        Some(Expression::Lambda { .. }) => AnalyzerView { types: v.types.push(callee_type), ..v },
        _ => {
            let (func, module, errs) = call_target(v, callee, callee_type);
            let w = with_errors(v, errs);
            let (t, errs2) = call_type(w, func, module);
            let u = with_errors(w, errs2);
            AnalyzerView {
                types: u.types.push(t),
                struct_fields: if is_range_new(w, func, module) && !w.struct_fields.contains_key("Range"@) {
                    u.struct_fields.insert("Range"@, Map::empty())
                } else {
                    u.struct_fields
                },
                ..u
            }
        },
    }
}

/// The call declares the module `range`: it is `range::new` and `Range` was
/// not known yet.
pub open spec fn call_declares_range(v: AnalyzerView, callee: Option<Expression>, callee_type: TypeView) -> bool {
    match callee {
        Some(Expression::Lambda { .. }) => false,
        _ => {
            let (func, module, errs) = call_target(v, callee, callee_type);
            is_range_new(v, func, module) && !v.struct_fields.contains_key("Range"@)
        },
    }
}

// ==================== struct literals ====================

/// How far the fields of a struct literal have been matched: the fields
/// named so far, the fields given a value (by name, by position or by a
/// spread), the next field a positional value may fill, the type errors
/// reported, and the error that ended the literal, if any.
pub struct LiteralScan {
    pub named: Seq<Seq<char>>,
    pub covered: Seq<Seq<char>>,
    pub next: int,
    pub errs: Seq<Seq<char>>,
    pub fail: Option<Seq<char>>,
}

/// `order` lists the fields of a struct, each once.
pub open spec fn field_order(order: Seq<Seq<char>>, fields: Map<Seq<char>, TypeView>) -> bool {
    &&& order.no_duplicates()
    &&& forall|k: Seq<char>| fields.contains_key(k) <==> order.contains(k)
}

/// The first position at or after `i` whose field is not yet given a value.
pub open spec fn next_uncovered(order: Seq<Seq<char>>, covered: Seq<Seq<char>>, i: int) -> int
    decreases order.len() - i,
{
    if 0 <= i < order.len() && covered.contains(order[i]) {
        next_uncovered(order, covered, i + 1)
    } else {
        i
    }
}

/// A positional value that is a variable holding a value of the literal's
/// own struct: it fills every field not named.
pub open spec fn is_spread(v: AnalyzerView, struct_name: Seq<char>, init: StructFieldInit) -> bool {
    match init {
        StructFieldInit::Positional(value) => match *value {
            Expression::Identifier(id) => {
                let sym = if lookup_in(v.scopes, v.module + "::"@ + id@) is Some {
                    lookup_in(v.scopes, v.module + "::"@ + id@)
                } else {
                    lookup_in(v.scopes, id@)
                };
                sym matches Some(s) && s.data_type@ == TypeView::Struct(struct_name)
            },
            _ => false,
        },
        _ => false,
    }
}

/// How a struct literal field is named in a type error.
pub open spec fn field_context(name: Seq<char>) -> Seq<char> {
    "struct literal field '"@ + name + "'"@
}

/// The value types of a sequence of types.
pub open spec fn types_of(v: Seq<DataType>) -> Seq<TypeView> {
    v.map_values(|d: DataType| d@)
}

/// The error of giving field `name`, of type `expected`, a value of type
/// `t`; none when either type is unknown.
pub open spec fn field_check(name: Seq<char>, expected: TypeView, t: TypeView) -> Seq<Seq<char>> {
    if expected != TypeView::Unknown && t != TypeView::Unknown && !compatible(expected, t) {
        seq![
            "Type mismatch in "@ + field_context(name) + ": expected "@ + type_text(expected) + ", got "@
                + type_text(t),
        ]
    } else {
        Seq::empty()
    }
}

/// One field initialiser of value type `t` matched against the struct.
pub open spec fn literal_step(
    v: AnalyzerView,
    struct_name: Seq<char>,
    fields: Map<Seq<char>, TypeView>,
    order: Seq<Seq<char>>,
    st: LiteralScan,
    init: StructFieldInit,
    t: TypeView,
) -> LiteralScan {
    if st.fail is Some {
        st
    } else {
        match init {
            StructFieldInit::Named { name, value } => if !fields.contains_key(name@) {
                LiteralScan { fail: Some("Struct '"@ + struct_name + "' has no field '"@ + name@ + "'"@), ..st }
            } else if st.named.contains(name@) {
                LiteralScan { fail: Some("Field '"@ + name@ + "' assigned multiple times in struct literal"@), ..st }
            } else {
                LiteralScan {
                    named: st.named.push(name@),
                    covered: st.covered.push(name@),
                    errs: st.errs + field_check(name@, fields[name@], t),
                    ..st
                }
            },
            StructFieldInit::Positional(value) => if is_spread(v, struct_name, init) {
                LiteralScan { covered: st.covered + order, ..st }
            } else {
                let i = next_uncovered(order, st.covered, st.next);
                if i >= order.len() {
                    LiteralScan {
                        fail: Some("Too many positional fields in struct literal for '"@ + struct_name + "'"@),
                        ..st
                    }
                } else {
                    LiteralScan {
                        covered: st.covered.push(order[i]),
                        next: i + 1,
                        errs: st.errs + field_check(order[i], fields[order[i]], t),
                        ..st
                    }
                }
            },
        }
    }
}

/// The first `n` field initialisers matched, in order.
pub open spec fn literal_scan(
    v: AnalyzerView,
    struct_name: Seq<char>,
    fields: Map<Seq<char>, TypeView>,
    order: Seq<Seq<char>>,
    inits: Seq<StructFieldInit>,
    types: Seq<TypeView>,
    n: nat,
) -> LiteralScan
    decreases n,
{
    if n == 0 {
        LiteralScan { named: Seq::empty(), covered: Seq::empty(), next: 0, errs: Seq::empty(), fail: None }
    } else {
        literal_step(
            v,
            struct_name,
            fields,
            order,
            literal_scan(v, struct_name, fields, order, inits, types, (n - 1) as nat),
            inits[n - 1],
            types[n - 1],
        )
    }
}

/// The type of a struct literal whose values have types `types`, with the
/// struct's fields taken in `order`, and the errors reported: a literal of
/// an unknown struct, a field the struct lacks, a field named twice, or
/// more positional values than free fields is `Unknown`.
pub open spec fn literal_outcome(
    v: AnalyzerView,
    struct_name: Seq<char>,
    inits: Seq<StructFieldInit>,
    types: Seq<TypeView>,
    order: Seq<Seq<char>>,
) -> (TypeView, Seq<Seq<char>>) {
    if !v.struct_fields.contains_key(struct_name) {
        (TypeView::Unknown, seq!["Unknown struct type: '"@ + struct_name + "'"@])
    } else {
        let st = literal_scan(v, struct_name, v.struct_fields[struct_name], order, inits, types, inits.len());
        match st.fail {
            Some(m) => (TypeView::Unknown, st.errs.push(m)),
            None => (TypeView::Struct(struct_name), st.errs),
        }
    }
}

/// The state after a struct literal is typed with its fields taken in
/// `order`: its errors reported and its type pushed.
pub open spec fn literal_visited(
    v: AnalyzerView,
    struct_name: Seq<char>,
    inits: Seq<StructFieldInit>,
    types: Seq<TypeView>,
    order: Seq<Seq<char>>,
) -> AnalyzerView {
    let (t, errs) = literal_outcome(v, struct_name, inits, types, order);
    let w = with_errors(v, errs);
    AnalyzerView { types: w.types.push(t), ..w }
}

/// Once the literal has failed, later initialisers change nothing.
proof fn lemma_literal_failed_stays(
    v: AnalyzerView,
    struct_name: Seq<char>,
    fields: Map<Seq<char>, TypeView>,
    order: Seq<Seq<char>>,
    inits: Seq<StructFieldInit>,
    types: Seq<TypeView>,
    i: nat,
    n: nat,
)
    requires
        i <= n,
        literal_scan(v, struct_name, fields, order, inits, types, i).fail is Some,
    ensures
        literal_scan(v, struct_name, fields, order, inits, types, n) == literal_scan(
            v,
            struct_name,
            fields,
            order,
            inits,
            types,
            i,
        ),
    decreases n - i,
{
    if i < n {
        lemma_literal_failed_stays(v, struct_name, fields, order, inits, types, i, (n - 1) as nat);
    }
}

// ==================== member access ====================

/// The member names a private field: it starts with `_`.
pub open spec fn is_private_name(member: Seq<char>) -> bool {
    member.len() > 0 && member[0] == '_'
}

/// The type of `object.member` whose object has type `object_type`, and
/// the error reported: a field of `self` inside an `impl` block; a module
/// member reached with a dot (refused: `::` is the module separator, but
/// typed); a field of a struct value (a private field, starting with `_`,
/// only inside the struct's own `impl` blocks); anything else is an error.
pub open spec fn member_outcome(v: AnalyzerView, object: Option<Expression>, member: Seq<char>, object_type: TypeView) -> (
    TypeView,
    Seq<Seq<char>>,
) {
    match object {
        Some(Expression::Identifier(o)) => if o@ == "self"@ {
            match v.impl_struct {
                Some(sn) => if v.struct_fields.contains_key(sn) {
                    if v.struct_fields[sn].contains_key(member) {
                        (v.struct_fields[sn][member], Seq::empty())
                    } else {
                        (TypeView::Unknown, seq!["Struct '"@ + sn + "' has no field '"@ + member + "'"@])
                    }
                } else {
                    (TypeView::Unknown, seq!["'self' used outside of impl block"@])
                },
                None => (TypeView::Unknown, seq!["'self' used outside of impl block"@]),
            }
        } else if symbol_type_of(v, o@ + "::"@ + member) is Some {
            (
                symbol_type_of(v, o@ + "::"@ + member)->0,
                seq![
                    "Use '::' for module access: '"@ + o@ + "::"@ + member + "' instead of '"@ + o@ + "."@ + member
                        + "'"@,
                ],
            )
        } else {
            match object_type {
                TypeView::Struct(sn) if v.struct_fields.contains_key(sn) => if v.struct_fields[sn].contains_key(member) {
                    if is_private_name(member) && v.impl_struct != Some(sn) {
                        (
                            TypeView::Unknown,
                            seq!["Private field '"@ + member + "' of struct '"@ + sn + "' is not accessible here"@],
                        )
                    } else {
                        (v.struct_fields[sn][member], Seq::empty())
                    }
                } else {
                    (TypeView::Unknown, seq!["Struct '"@ + sn + "' has no field '"@ + member + "'"@])
                },
                _ => (TypeView::Unknown, seq!["Module '"@ + o@ + "' has no member '"@ + member + "'"@]),
            }
        },
        _ => (TypeView::Unknown, seq!["Member access left side must be an identifier"@]),
    }
}

/// The state after a member access is typed: its error reported and its
/// type pushed. Without an object, the type on top of the stack is taken
/// off first (as if it were the object's).
pub open spec fn member_visited(v: AnalyzerView, object: Option<Expression>, member: Seq<char>, object_type: TypeView) -> AnalyzerView {
    let (t, errs) = member_outcome(v, object, member, object_type);
    let w = with_errors(v, errs);
    let base = if object is None && w.types.len() > 0 {
        w.types.drop_last()
    } else {
        w.types
    };
    AnalyzerView { types: base.push(t), ..w }
}

// ==================== names, operators, indexing, returns ====================

/// The type on top of the stack, `unknown` when it is empty.
pub open spec fn current_type(v: AnalyzerView) -> TypeView {
    if v.types.len() == 0 {
        TypeView::Unknown
    } else {
        v.types.last()
    }
}

/// The state after the errors `errs` are reported and the type `t` pushed.
pub open spec fn typed_with(v: AnalyzerView, t: TypeView, errs: Seq<Seq<char>>) -> AnalyzerView {
    let w = with_errors(v, errs);
    AnalyzerView { types: w.types.push(t), ..w }
}

/// The type a name denotes, and the error when it denotes nothing: `self`
/// inside an `impl` block, a field of the `impl`'s struct, or a symbol
/// looked up by its bare name, then qualified by the current module.
pub open spec fn ident_outcome(v: AnalyzerView, name: Seq<char>) -> (TypeView, Seq<Seq<char>>) {
    if name == "self"@ {
        match v.impl_struct {
            Some(sn) => (TypeView::Struct(sn), Seq::empty()),
            None => (TypeView::Unknown, seq!["'self' used outside of impl block"@]),
        }
    } else if is_impl_field(v, name) {
        (v.struct_fields[v.impl_struct->0][name], Seq::empty())
    } else if symbol_type_of(v, name) is Some {
        (symbol_type_of(v, name)->0, Seq::empty())
    } else if symbol_type_of(v, v.module + "::"@ + name) is Some {
        (symbol_type_of(v, v.module + "::"@ + name)->0, Seq::empty())
    } else {
        (TypeView::Unknown, seq!["Undeclared identifier: '"@ + name + "'"@])
    }
}

/// The type of a unary operator applied to an operand of type `t`, and the
/// error reported. `&` takes a function's address (of unknown type).
pub open spec fn unary_outcome(op: Seq<char>, t: TypeView) -> (TypeView, Seq<Seq<char>>) {
    if op == "&"@ {
        (TypeView::Unknown, Seq::empty())
    } else if op == "-"@ || op == "+"@ {
        (t, if !numeric(t) {
            seq!["Unary operator '"@ + op + "' requires numeric operand"@]
        } else {
            Seq::empty()
        })
    } else if op == "!"@ {
        (TypeView::Bool, if t != TypeView::Bool {
            seq!["Logical not '!' requires boolean operand"@]
        } else {
            Seq::empty()
        })
    } else {
        (TypeView::Unknown, seq!["Unknown unary operator: "@ + op])
    }
}

/// The type of `array[index]` whose parts have types `array_type` and
/// `index_type`, and the error reported: the index must be an integer; a
/// field of the `impl`'s struct gives its element type (a nullable array
/// unwrapped); a variable must be a declared array.
pub open spec fn index_outcome(v: AnalyzerView, array: Option<Expression>, array_type: TypeView, index_type: TypeView) -> (
    TypeView,
    Seq<Seq<char>>,
) {
    if index_type != TypeView::Int {
        (TypeView::Unknown, seq!["Array index must be integer"@])
    } else {
        match array {
            Some(Expression::Identifier(id)) => if is_impl_field(v, id@) {
                (match array_type {
                    TypeView::Nullable(inner) => *inner,
                    _ => array_type,
                }, Seq::empty())
            } else {
                match lookup_in(v.scopes, id@) {
                    Some(sym) => if !sym.is_array {
                        (TypeView::Unknown, seq!["Variable '"@ + id@ + "' is not an array"@])
                    } else {
                        (sym.data_type@, Seq::empty())
                    },
                    None => (TypeView::Unknown, seq!["Array variable '"@ + id@ + "' not declared"@]),
                }
            },
            _ => (array_type, Seq::empty()),
        }
    }
}

/// The errors for the elements after the first of an array literal whose
/// elements have types `types`, among the first `n`: each one that does not
/// fit the first element's type.
pub open spec fn mixed_errors(types: Seq<TypeView>, n: nat) -> Seq<Seq<char>>
    decreases n,
{
    if n <= 1 {
        Seq::empty()
    } else {
        mixed_errors(types, (n - 1) as nat) + if !compatible(types[0], types[n - 1]) {
            seq!["Mixed types in array literal: "@ + type_text(types[0]) + " and "@ + type_text(types[n - 1])]
        } else {
            Seq::empty()
        }
    }
}

/// The type of an array literal: an array of its first element's type
/// (`unknown` when it is empty).
pub open spec fn array_literal_type(types: Seq<TypeView>) -> TypeView {
    TypeView::Array(Box::new(if types.len() == 0 {
        TypeView::Unknown
    } else {
        types[0]
    }))
}

/// The type of `inner?`: a `Result` gives its value (an integer at run
/// time); any other type passes through; no operand is `unknown`.
pub open spec fn try_type(inner: Option<TypeView>) -> TypeView {
    match inner {
        Some(TypeView::Struct(sn)) => if sn == "Result"@ {
            TypeView::Int
        } else {
            TypeView::Struct(sn)
        },
        Some(t) => t,
        None => TypeView::Unknown,
    }
}

/// One error per argument of a range, among the first `n`, that is not a
/// number.
pub open spec fn range_errors(types: Seq<TypeView>, n: nat) -> Seq<Seq<char>>
    decreases n,
{
    if n == 0 {
        Seq::empty()
    } else {
        range_errors(types, (n - 1) as nat) + if !numeric(types[n - 1]) {
            seq!["Range arguments must be numeric"@]
        } else {
            Seq::empty()
        }
    }
}

/// One error per interpolated value, among the first `n`, that did not
/// parse.
pub open spec fn format_errors(values: Seq<Option<Box<Expression>>>, n: nat) -> Seq<Seq<char>>
    decreases n,
{
    if n == 0 {
        Seq::empty()
    } else {
        format_errors(values, (n - 1) as nat) + if values[n - 1] is None {
            seq!["Invalid expression in format string"@]
        } else {
            Seq::empty()
        }
    }
}

/// The errors of a `return`: outside a function; without a value in a
/// function that returns one; a value whose type (`t`, the type visited
/// last) does not fit the function's return type.
pub open spec fn return_errors(v: AnalyzerView, has_value: bool, t: TypeView) -> Seq<Seq<char>> {
    if v.function.len() == 0 {
        seq!["Return statement outside function"@]
    } else if !has_value {
        if v.function_return_type != TypeView::None_ {
            seq![
                "Function '"@ + v.function + "' expects return type "@ + type_text(v.function_return_type)
                    + ", but got none"@,
            ]
        } else {
            Seq::empty()
        }
    } else if !compatible(v.function_return_type, t) {
        seq![
            "Type mismatch in "@ + ("function '"@ + v.function + "' return"@) + ": expected "@ + type_text(
                v.function_return_type,
            ) + ", got "@ + type_text(t),
        ]
    } else {
        Seq::empty()
    }
}

/// The error `msg` of a condition of type `t` (none without a condition)
/// that is neither a boolean nor a number.
pub open spec fn condition_errors(msg: Seq<char>, t: Option<TypeView>) -> Seq<Seq<char>> {
    match t {
        Some(c) => if c != TypeView::Bool && !numeric(c) {
            seq![msg]
        } else {
            Seq::empty()
        },
        None => Seq::empty(),
    }
}

/// A `for` loop may walk a value of type `t`: an integer, a string, an
/// array, a `Range`, a `Vec`, a generic parameter in scope, or a value of
/// unknown type.
pub open spec fn iterable_accepted(v: AnalyzerView, t: TypeView) -> bool {
    ||| t == TypeView::Int || t == TypeView::Str || t == TypeView::Unknown || t is Array
    ||| (t matches TypeView::Struct(s) && (s == "Range"@ || s == "Vec"@ || v.generics.contains(s)))
}

/// The type of the value variable of a `for` loop over a value of type
/// `t`: a string's are strings, an array's are its elements, and anything
/// else yields integers.
pub open spec fn loop_value_type(t: TypeView) -> TypeView {
    match t {
        TypeView::Str => TypeView::Str,
        TypeView::Array(e) => *e,
        _ => TypeView::Int,
    }
}

/// The error of a `for` loop over a value of type `t`, names resolving in
/// `scopes`: none when the type is accepted or the iterable is an array
/// variable.
pub open spec fn iterable_errors(
    v: AnalyzerView,
    scopes: Seq<Map<Seq<char>, Symbol>>,
    iterable: Option<Expression>,
    t: TypeView,
) -> Seq<Seq<char>> {
    if iterable_accepted(v, t) {
        Seq::empty()
    } else if (iterable matches Some(Expression::Identifier(id)) && (lookup_in(scopes, id@) matches Some(s) && s.is_array)) {
        Seq::empty()
    } else {
        seq!["For loop iterable must be range, string, or array"@]
    }
}

proof fn lemma_with_errors_then(v: AnalyzerView, errs: Seq<Seq<char>>, m: Seq<char>)
    ensures
        with_errors(with_errors(v, errs), seq![m]) == with_errors(v, errs.push(m)),
{
    lemma_with_errors_concat(v, errs, seq![m]);
    assert(errs + seq![m] =~= errs.push(m));
}

/// The operators' texts, character by character.
proof fn lemma_operator_texts()
    ensures
        "="@.len() == 1 && "="@[0] == '=',
        "+"@.len() == 1 && "+"@[0] == '+',
        "-"@.len() == 1 && "-"@[0] == '-',
        "*"@.len() == 1 && "*"@[0] == '*',
        "/"@.len() == 1 && "/"@[0] == '/',
        "%"@.len() == 1 && "%"@[0] == '%',
        "+="@.len() == 2 && "+="@[0] == '+' && "+="@[1] == '=',
        "-="@.len() == 2 && "-="@[0] == '-' && "-="@[1] == '=',
        "*="@.len() == 2 && "*="@[0] == '*' && "*="@[1] == '=',
        "/="@.len() == 2 && "/="@[0] == '/' && "/="@[1] == '=',
        "=="@.len() == 2 && "=="@[0] == '=' && "=="@[1] == '=',
        "!="@.len() == 2 && "!="@[0] == '!' && "!="@[1] == '=',
        "<"@.len() == 1 && "<"@[0] == '<',
        ">"@.len() == 1 && ">"@[0] == '>',
        "<="@.len() == 2 && "<="@[0] == '<' && "<="@[1] == '=',
        ">="@.len() == 2 && ">="@[0] == '>' && ">="@[1] == '=',
        "&&"@.len() == 2 && "&&"@[0] == '&' && "&&"@[1] == '&',
        "||"@.len() == 2 && "||"@[0] == '|' && "||"@[1] == '|',
        ".."@.len() == 2 && ".."@[0] == '.' && ".."@[1] == '.',
{
    reveal_strlit("=");
    reveal_strlit("+");
    reveal_strlit("-");
    reveal_strlit("*");
    reveal_strlit("/");
    reveal_strlit("%");
    reveal_strlit("+=");
    reveal_strlit("-=");
    reveal_strlit("*=");
    reveal_strlit("/=");
    reveal_strlit("==");
    reveal_strlit("!=");
    reveal_strlit("<");
    reveal_strlit(">");
    reveal_strlit("<=");
    reveal_strlit(">=");
    reveal_strlit("&&");
    reveal_strlit("||");
    reveal_strlit("..");
}

/// An optional reference as an optional value.
pub open spec fn deref_opt(e: Option<&Expression>) -> Option<Expression> {
    match e {
        Some(x) => Some(*x),
        None => None,
    }
}

fn index_base_of(e: &Expression) -> (r: &Expression)
    ensures
        *r == index_base(*e),
    decreases e,
{
    match e {
        Expression::ArrayIndex { array: Some(a), .. } => index_base_of(&**a),
        _ => e,
    }
}

proof fn lemma_with_error_one(v: AnalyzerView, m: Seq<char>)
    ensures
        with_errors(v, seq![m]) == with_error(v, 0, 0, 0, m),
{
    lemma_with_errors_push(v, Seq::empty(), m);
    assert(Seq::<Seq<char>>::empty().push(m) =~= seq![m]);
}

proof fn lemma_with_errors_none(v: AnalyzerView)
    ensures
        with_errors(v, Seq::empty()) == v,
{
}

proof fn lemma_with_errors_scopes(v: AnalyzerView, w: AnalyzerView, msgs: Seq<Seq<char>>)
    requires
        v == (AnalyzerView { scopes: v.scopes, ..w }),
    ensures
        with_errors(v, msgs) == (AnalyzerView { scopes: v.scopes, ..with_errors(w, msgs) }),
{
    lemma_with_errors_frame(v, msgs);
    lemma_with_errors_frame(w, msgs);
    lemma_with_errors_same(v, w, msgs);
}

proof fn lemma_impl_signatures_scopes(v: AnalyzerView, w: AnalyzerView, node: ImplBlock, items: Seq<ImplItem>, owner: Seq<char>)
    requires
        v == (AnalyzerView { scopes: v.scopes, ..w }),
    ensures
        impl_signatures(v, node, items, owner).0 == (AnalyzerView { scopes: v.scopes, ..impl_signatures(w, node, items, owner).0 }),
        impl_signatures(v, node, items, owner).1 == impl_signatures(w, node, items, owner).1,
    decreases items.len(),
{
    if items.len() > 0 {
        lemma_impl_signatures_scopes(v, w, node, items.drop_last(), owner);
        let (a, _) = impl_signatures(v, node, items.drop_last(), owner);
        let (b, _) = impl_signatures(w, node, items.drop_last(), owner);
        let f = item_function(items.last());
        let key = method_key(node, f);
        lemma_signature_read_scopes(
            AnalyzerView { impl_methods: a.impl_methods.push(key), ..a },
            AnalyzerView { impl_methods: b.impl_methods.push(key), ..b },
            f,
            combine_generics(a.generics, texts(f.generic_params@)),
        );
    }
}

proof fn lemma_extern_signatures_scopes(v: AnalyzerView, w: AnalyzerView, fs: Seq<Function>)
    requires
        v == (AnalyzerView { scopes: v.scopes, ..w }),
    ensures
        extern_signatures(v, fs).0 == (AnalyzerView { scopes: v.scopes, ..extern_signatures(w, fs).0 }),
        extern_signatures(v, fs).1 == extern_signatures(w, fs).1,
    decreases fs.len(),
{
    if fs.len() > 0 {
        lemma_extern_signatures_scopes(v, w, fs.drop_last());
        let (a, _) = extern_signatures(v, fs.drop_last());
        let (b, _) = extern_signatures(w, fs.drop_last());
        lemma_signature_read_scopes(a, b, fs.last(), a.generics);
    }
}

/// Pre-declaring a statement's signature does the same whatever the
/// scopes are.
proof fn lemma_signature_step_scopes(v: AnalyzerView, w: AnalyzerView, st: Statement)
    requires
        v == (AnalyzerView { scopes: v.scopes, ..w }),
    ensures
        signature_step(v, st).0 == (AnalyzerView { scopes: v.scopes, ..signature_step(w, st).0 }),
        signature_step(v, st).1 == signature_step(w, st).1,
{
    match st {
        Statement::Function(f) => {
            lemma_signature_read_scopes(v, w, *f, combine_generics(v.generics, texts(f.generic_params@)));
        },
        Statement::StructDefinition(sd) => {
            let unknown = field_types(sd.fields@, texts(sd.generic_params@), v.struct_fields.dom()).1;
            lemma_with_errors_scopes(v, w, unknown_type_errors(unknown));
        },
        Statement::EnumDefinition(ed) => {
            let unknown = variant_fields(ed.variants@, texts(ed.generic_params@), v.struct_fields.dom()).1;
            lemma_with_errors_scopes(v, w, unknown_type_errors(unknown));
        },
        Statement::ImplBlock(ib) => {
            let owner = decode_utf8(bytes_before(encode_utf8(ib.struct_name@), 60));
            lemma_impl_signatures_scopes(
                AnalyzerView { impl_struct: Some(owner), generics: texts(ib.generic_params@), ..v },
                AnalyzerView { impl_struct: Some(owner), generics: texts(ib.generic_params@), ..w },
                ib,
                ib.items@,
                owner,
            );
        },
        Statement::ExternBlock(eb) => {
            lemma_extern_signatures_scopes(v, w, eb.functions@);
        },
        _ => {},
    }
}

// ==================== C headers ====================

/// What a line of a C header is, for inlining includes.
pub enum IncludeDirective {
    /// `#include "path"`.
    Local(String),
    /// `#include <path>`.
    System(String),
    /// Any other line, including a malformed `#include`.
    Plain,
}

/// An include directive as a mathematical value.
pub enum IncludeSpec {
    Local(Seq<char>),
    System(Seq<char>),
    Plain,
}

impl IncludeDirective {
    /// This directive as a mathematical value.
    pub open spec fn spec_of(&self) -> IncludeSpec {
        match self {
            IncludeDirective::Local(p) => IncludeSpec::Local(p@),
            IncludeDirective::System(p) => IncludeSpec::System(p@),
            IncludeDirective::Plain => IncludeSpec::Plain,
        }
    }
}

/// What a header line is: after leading white space, `#include`, more
/// white space, then `"path"` (a local include) or `<path>` (a system
/// include), the path ending at the first closing `"` or `>`.
pub open spec fn include_spec(line: Seq<char>) -> IncludeSpec {
    let p = skip_white(line, 0);
    if p + 8 <= line.len() && line.subrange(p, p + 8) == seq!['#', 'i', 'n', 'c', 'l', 'u', 'd', 'e'] {
        let q = skip_white(line, p + 8);
        if q < line.len() && line[q] == '"' {
            let e = find_char(line, '"', q + 1);
            if e >= 0 {
                IncludeSpec::Local(line.subrange(q + 1, e))
            } else {
                IncludeSpec::Plain
            }
        } else if q < line.len() && line[q] == '<' {
            let e = find_char(line, '>', q);
            if e >= 0 {
                IncludeSpec::System(line.subrange(q + 1, e))
            } else {
                IncludeSpec::Plain
            }
        } else {
            IncludeSpec::Plain
        }
    } else {
        IncludeSpec::Plain
    }
}

/// Reads a line of a C header as an include directive.
pub fn include_directive(line: &str) -> (d: IncludeDirective)
    ensures
        d.spec_of() == include_spec(line@),
{
    let v = str_chars(line);
    proof {
        lemma_skip_white_bounds(v@, 0);
    }
    let p = skip_white_exec(&v, 0);
    if v.len() - p < 8 {
        return IncludeDirective::Plain;
    }
    let word = v[p] == '#' && v[p + 1] == 'i' && v[p + 2] == 'n' && v[p + 3] == 'c' && v[p + 4] == 'l' && v[p + 5] == 'u'
        && v[p + 6] == 'd' && v[p + 7] == 'e';
    if !word {
        assert(v@.subrange(p as int, p + 8) != seq!['#', 'i', 'n', 'c', 'l', 'u', 'd', 'e']) by {
            let w = v@.subrange(p as int, p + 8);
            if w == seq!['#', 'i', 'n', 'c', 'l', 'u', 'd', 'e'] {
                assert(w[0] == v@[p as int] && w[1] == v@[p + 1] && w[2] == v@[p + 2] && w[3] == v@[p + 3]);
                assert(w[4] == v@[p + 4] && w[5] == v@[p + 5] && w[6] == v@[p + 6] && w[7] == v@[p + 7]);
            }
        }
        return IncludeDirective::Plain;
    }
    assert(v@.subrange(p as int, p + 8) =~= seq!['#', 'i', 'n', 'c', 'l', 'u', 'd', 'e']);
    let q = skip_white_exec(&v, p + 8);
    if q < v.len() && v[q] == '"' {
        match find_char_exec(&v, '"', q + 1) {
            Some(e) => IncludeDirective::Local(chars_to_string(&v, q + 1, e)),
            None => IncludeDirective::Plain,
        }
    } else if q < v.len() && v[q] == '<' {
        match find_char_exec(&v, '>', q) {
            Some(e) => {
                assert(e != q);
                IncludeDirective::System(chars_to_string(&v, q + 1, e))
            },
            None => IncludeDirective::Plain,
        }
    } else {
        IncludeDirective::Plain
    }
}

proof fn lemma_skip_white_bounds(s: Seq<char>, i: int)
    requires
        0 <= i <= s.len(),
    ensures
        i <= skip_white(s, i) <= s.len(),
    decreases s.len() - i,
{
    if i < s.len() && is_white_space_at(s, i) {
        lemma_skip_white_bounds(s, i + 1);
    }
}

spec fn is_white_space_at(s: Seq<char>, i: int) -> bool {
    crate::text::is_white_space(s[i])
}

/// `needle` occurs in `s` at position `k`.
pub open spec fn occurs_at(s: Seq<char>, needle: Seq<char>, k: int) -> bool {
    0 <= k && k + needle.len() <= s.len() && s.subrange(k, k + needle.len()) == needle
}

/// A header that inlining may read: `name` joined to the directory `dir`,
/// or `name` itself without one.
pub struct HeaderCandidate {
    pub dir: Option<String>,
    pub name: String,
}

/// What inlining the includes of a header does with one of its lines.
pub enum LineAction {
    /// The line is kept as it is.
    Keep,
    /// The first of these headers that can be read is inlined in place of
    /// the line, which is kept when none can be.
    Inline(Vec<HeaderCandidate>),
}

/// The candidates for a line of a header in directory `base_dir` whose
/// path lies under the system header root `sysroot`, if it does: a local
/// include is looked for next to the header, then as written; a system
/// include under the root; no line else is replaced.
pub open spec fn line_candidates(
    line: Seq<char>,
    base_dir: Option<Seq<char>>,
    sysroot: Option<Seq<char>>,
) -> Option<Seq<(Option<Seq<char>>, Seq<char>)>> {
    match include_spec(line) {
        IncludeSpec::Local(inc) => Some(seq![(base_dir, inc), (None, inc)]),
        IncludeSpec::System(inc) => match sysroot {
            Some(r) => Some(seq![(Some(r), inc)]),
            None => None,
        },
        IncludeSpec::Plain => None,
    }
}

/// Decides what inlining does with a line of a header (see
/// `line_candidates`).
pub fn header_line_action(line: &str, base_dir: Option<&str>, sysroot: Option<&str>) -> (a: LineAction)
    ensures
        match a {
            LineAction::Keep => line_candidates(
                line@,
                match base_dir {
                    Some(d) => Some(d@),
                    None => None,
                },
                match sysroot {
                    Some(r) => Some(r@),
                    None => None,
                },
            ) is None,
            LineAction::Inline(v) => line_candidates(
                line@,
                match base_dir {
                    Some(d) => Some(d@),
                    None => None,
                },
                match sysroot {
                    Some(r) => Some(r@),
                    None => None,
                },
            ) == Some(v@.map_values(|c: HeaderCandidate| (opt_text(c.dir), c.name@))),
        },
{
    let d = include_directive(line);
    match d {
        IncludeDirective::Local(inc) => {
            let first = HeaderCandidate {
                dir: match base_dir {
                    Some(b) => Some(owned(b)),
                    None => None,
                },
                name: inc.clone(),
            };
            let second = HeaderCandidate { dir: None, name: inc };
            let mut v: Vec<HeaderCandidate> = Vec::new();
            v.push(first);
            v.push(second);
            assert(v@.map_values(|c: HeaderCandidate| (opt_text(c.dir), c.name@)) =~= seq![
                (opt_text(v@[0].dir), v@[0].name@),
                (None::<Seq<char>>, v@[1].name@),
            ]);
            LineAction::Inline(v)
        },
        IncludeDirective::System(inc) => match sysroot {
            Some(r) => {
                let mut v: Vec<HeaderCandidate> = Vec::new();
                v.push(HeaderCandidate { dir: Some(owned(r)), name: inc });
                assert(v@.map_values(|c: HeaderCandidate| (opt_text(c.dir), c.name@)) =~= seq![(Some(r@), v@[0].name@)]);
                LineAction::Inline(v)
            },
            None => LineAction::Keep,
        },
        IncludeDirective::Plain => LineAction::Keep,
    }
}

/// Where a header read from path `resolved` looks for what it includes: its
/// directory (see `path_parent`) and the system header root its path lies
/// under (see `system_include_root`).
pub fn header_context(resolved: &str) -> (r: (Option<String>, Option<String>))
    ensures
        r.0 is None ==> !ordinary_path(resolved@),
        ordinary_path(resolved@) ==> opt_text(r.0) == Some(parent_dir(resolved@)),
        match r.1 {
            Some(root) => exists|k: int| first_occurrence(resolved@, "/usr/include/"@, k) && root@ == resolved@.subrange(0, k + 13),
            None => forall|k: int| !first_occurrence(resolved@, "/usr/include/"@, k),
        },
{
    (path_parent(resolved), system_include_root(resolved))
}

/// The headers already inlined, by key (a header's canonical path): each
/// is inlined once, a later include of it giving nothing.
pub struct HeaderVisits {
    keys: Vec<String>,
}

impl HeaderVisits {
    /// The keys recorded so far, in order.
    pub closed spec fn keys(&self) -> Seq<Seq<char>> {
        texts(self.keys@)
    }

    /// Nothing visited yet.
    pub fn new() -> (h: HeaderVisits)
        ensures
            h.keys() == Seq::<Seq<char>>::empty(),
    {
        let h = HeaderVisits { keys: Vec::new() };
        assert(h.keys() =~= Seq::<Seq<char>>::empty());
        h
    }

    /// Records the header `key`: whether it is its first visit, which is
    /// when it is inlined.
    pub fn first_visit(&mut self, key: &str) -> (r: bool)
        ensures
            r == !old(self).keys().contains(key@),
            final(self).keys() == if r {
                old(self).keys().push(key@)
            } else {
                old(self).keys()
            },
    {
        if names_contain(&self.keys, key) {
            false
        } else {
            self.keys.push(owned(key));
            assert(self.keys() =~= old(self).keys().push(key@));
            true
        }
    }
}

/// `needle` occurs in `s` at position `k`, and nowhere before.
pub open spec fn first_occurrence(s: Seq<char>, needle: Seq<char>, k: int) -> bool {
    &&& occurs_at(s, needle, k)
    &&& forall|j: int| 0 <= j < k ==> !#[trigger] occurs_at(s, needle, j)
}

/// The directory of system headers that a header's path lies in: the path
/// up to and including its first `/usr/include/`, if it has one.
pub fn system_include_root(path: &str) -> (r: Option<String>)
    ensures
        match r {
            Some(root) => exists|k: int| first_occurrence(path@, "/usr/include/"@, k) && root@ == path@.subrange(0, k + 13),
            None => forall|k: int| !first_occurrence(path@, "/usr/include/"@, k),
        },
{
    proof {
        reveal_strlit("/usr/include/");
    }
    let v = str_chars(path);
    let marker = str_chars("/usr/include/");
    assert(marker@.len() == 13);
    let mut k: usize = 0;
    while k <= v.len() && v.len() - k >= 13
        invariant
            v@ == path@,
            marker@ == "/usr/include/"@,
            marker@.len() == 13,
            forall|j: int| 0 <= j < k ==> !#[trigger] occurs_at(v@, marker@, j),
        decreases v@.len() - k,
    {
        let mut m: usize = 0;
        while m < 13 && v[k + m] == marker[m]
            invariant
                k + 13 <= v@.len(),
                v@.len() <= usize::MAX,
                m <= 13,
                k + 13 <= v@.len(),
                marker@.len() == 13,
                forall|t: int| 0 <= t < m ==> v@[k + t] == marker@[t],
            decreases 13 - m,
        {
            m = m + 1;
        }
        if m == 13 {
            assert(v@.subrange(k as int, k + 13) =~= marker@);
            assert(first_occurrence(path@, "/usr/include/"@, k as int));
            return Some(chars_to_string(&v, 0, k + 13));
        }
        assert(v@.subrange(k as int, k + 13)[m as int] != marker@[m as int]);
        assert(!occurs_at(v@, marker@, k as int));
        k = k + 1;
    }
    proof {
        assert forall|j: int| !first_occurrence(path@, "/usr/include/"@, j) by {
            if first_occurrence(path@, "/usr/include/"@, j) {
                assert(occurs_at(v@, marker@, j));
                assert(j < k);
            }
        }
    }
    None
}

impl SemanticAnalyzer {
    /// A fresh analyzer: an empty global scope, no diagnostics, modules
    /// searched for in `lib`, a debug build.
    pub fn new() -> (a: SemanticAnalyzer)
        ensures
            a@.scopes == seq![Map::<Seq<char>, Symbol>::empty()],
            a@.diagnostics.len() == 0,
            !a@.failed,
            a@.formatter is None,
            a@.function.len() == 0,
            a@.function_return_type == TypeView::None_,
            !a@.has_return,
            a@.loop_depth == 0,
            a@.module.len() == 0,
            a@.types.len() == 0,
            a@.struct_fields == Map::<Seq<char>, Map<Seq<char>, TypeView>>::empty(),
            a@.impl_struct is None,
            a@.lib_paths == seq!["lib"@],
            a@.loaded_modules.len() == 0,
            a@.module_dir is None,
            a@.module_aliases == Map::<Seq<char>, Seq<char>>::empty(),
            a@.generics.len() == 0,
            a@.build_mode == BuildMode::Debug,
            a@.traits == Map::<Seq<char>, TraitView>::empty(),
            a@.pending.len() == 0,
            a@.positions.len() == 0,
            a@.extern_libs.len() == 0,
            a@.impl_methods.len() == 0,
    {
        let mut lib_paths: Vec<String> = Vec::new();
        lib_paths.push(owned("lib"));
        let a = SemanticAnalyzer {
            env: Environment::new(),
            errors: Vec::new(),
            has_error: false,
            error_formatter: None,
            current_function: String::new(),
            current_function_return_type: DataType::None_,
            has_return_statement: false,
            loop_depth: 0,
            current_module: String::new(),
            type_stack: Vec::new(),
            struct_fields: Table::new(),
            current_impl_struct: None,
            lib_paths,
            loaded_modules: Vec::new(),
            current_module_dir: None,
            module_aliases: Table::new(),
            current_generic_params: Vec::new(),
            build_mode: BuildMode::Debug,
            trait_defs: Table::new(),
            pending_trait_impls: Vec::new(),
            structured_errors: Vec::new(),
            extern_libs: Vec::new(),
            impl_methods: Vec::new(),
        };
        assert(a@.struct_fields =~= Map::<Seq<char>, Map<Seq<char>, TypeView>>::empty());
        assert(a@.module_aliases =~= Map::<Seq<char>, Seq<char>>::empty());
        assert(a@.traits =~= Map::<Seq<char>, TraitView>::empty());
        assert(a@.lib_paths =~= seq!["lib"@]);
        a
    }

    /// Formats later diagnostics with `f`.
    pub fn set_error_formatter(&mut self, f: ErrorFormatter)
        ensures
            final(self)@ == (AnalyzerView { formatter: Some(f), ..old(self)@ }),
    {
        self.error_formatter = Some(f);
    }

    /// Searches modules in `paths`.
    pub fn set_lib_paths(&mut self, paths: Vec<String>)
        ensures
            final(self)@ == (AnalyzerView { lib_paths: texts(paths@), ..old(self)@ }),
    {
        self.lib_paths = paths;
    }

    /// Sets the build mode.
    pub fn set_build_mode(&mut self, mode: BuildMode)
        ensures
            final(self)@ == (AnalyzerView { build_mode: mode, ..old(self)@ }),
    {
        self.build_mode = mode;
    }

    /// Each error with its position (line, column, message), in order.
    pub fn get_structured_errors(&self) -> (r: &Vec<(i32, i32, String)>)
        ensures
            r@.map_values(|p: (i32, i32, String)| (p.0, p.1, p.2@)) == self@.positions,
    {
        &self.structured_errors
    }

    /// The libraries to link, from `extern "C"` blocks, in order.
    pub fn get_extern_libs(&self) -> (r: &Vec<String>)
        ensures
            texts(r@) == self@.extern_libs,
    {
        &self.extern_libs
    }

    /// Whether an error has been reported.
    pub fn has_errors(&self) -> (r: bool)
        ensures
            r == self@.failed,
    {
        self.has_error
    }

    /// The diagnostics reported so far.
    pub fn get_errors(&self) -> (r: &Vec<String>)
        ensures
            texts(r@) == self@.diagnostics,
    {
        &self.errors
    }

    /// The trait method an operator is written as (`+` is `add`, `==` is
    /// `eq`, `<` is `lt`, ...).
    pub fn operator_to_method(op: &str) -> (r: Option<&'static str>)
        ensures
            match r {
                Some(m) => operator_method(op@) == Some(m@),
                None => operator_method(op@) is None,
            },
    {
        if str_eq(op, "+") {
            Some("add")
        } else if str_eq(op, "-") {
            Some("sub")
        } else if str_eq(op, "*") {
            Some("mul")
        } else if str_eq(op, "/") {
            Some("div")
        } else if str_eq(op, "%") {
            Some("rem")
        } else if str_eq(op, "==") {
            Some("eq")
        } else if str_eq(op, "!=") {
            Some("ne")
        } else if str_eq(op, "<") {
            Some("lt")
        } else if str_eq(op, ">") {
            Some("gt")
        } else if str_eq(op, "<=") {
            Some("le")
        } else if str_eq(op, ">=") {
            Some("ge")
        } else {
            None
        }
    }

    fn diagnostic_text(&self, line: i32, col: i32, span: usize, msg: &str) -> (s: String)
        requires
            self.error_formatter matches Some(f) ==> f.snippet_defined(line, col),
        ensures
            s@ == diagnostic(self.error_formatter, line, col, span as nat, msg@),
    {
        match &self.error_formatter {
            Some(f) => f.format_error(line, col, span, "error", msg, true),
            None => {
                let mut s = owned("Error: ");
                s.append(msg);
                s
            },
        }
    }

    /// Reports an error that has no position.
    fn error(&mut self, msg: &str)
        ensures
            final(self)@ == with_error(old(self)@, 0, 0, 0, msg@),
    {
        let text = self.diagnostic_text(0, 0, 0, msg);
        self.has_error = true;
        self.structured_errors.push((0, 0, owned(msg)));
        self.errors.push(text);
        assert(texts(self.errors@) =~= texts(old(self).errors@).push(text@));
        assert(self@.positions =~= old(self)@.positions.push((0i32, 0i32, msg@)));
        assert(self@ == with_error(old(self)@, 0, 0, 0, msg@));
    }

    /// Reports an error at a source position (line and column), quoting
    /// the source when a formatter is set. The column must not be negative
    /// where the formatter quotes the line.
    pub fn error_at(&mut self, line: i32, col: i32, msg: &str)
        requires
            old(self)@.formatter matches Some(f) ==> f.snippet_defined(line, col),
        ensures
            final(self)@ == with_error(old(self)@, line, col, 1, msg@),
    {
        let text = self.diagnostic_text(line, col, 1, msg);
        self.has_error = true;
        self.structured_errors.push((line, col, owned(msg)));
        self.errors.push(text);
        assert(texts(self.errors@) =~= texts(old(self).errors@).push(text@));
        assert(self@.positions =~= old(self)@.positions.push((line, col, msg@)));
        assert(self@ == with_error(old(self)@, line, col, 1, msg@));
    }

    /// The type of the expression visited last, `unknown` when there is
    /// none.
    pub fn get_current_type(&self) -> (t: DataType)
        ensures
            t@ == if self@.types.len() == 0 {
                TypeView::Unknown
            } else {
                self@.types.last()
            },
    {
        if self.type_stack.len() == 0 {
            DataType::Unknown
        } else {
            self.type_stack[self.type_stack.len() - 1].clone()
        }
    }

    /// Checks that a value of type `source` may be stored where `target` is
    /// expected, reporting `Type mismatch in <context>: expected <target>,
    /// got <source>` when it may not.
    pub fn check_type_compatibility(&mut self, target: DataType, source: DataType, context: &str) -> (ok: bool)
        ensures
            ok == (target@ == source@ || (target@ == TypeView::Float && source@ == TypeView::Int)),
            final(self)@ == if ok {
                old(self)@
            } else {
                with_error(
                    old(self)@,
                    0,
                    0,
                    0,
                    "Type mismatch in "@ + context@ + ": expected "@ + type_text(target@) + ", got "@
                        + type_text(source@),
                )
            },
    {
        if Environment::is_type_compatible(&target, &source) {
            return true;
        }
        let mut msg = owned("Type mismatch in ");
        msg.append(context);
        msg.append(": expected ");
        let t = data_type_to_string(target);
        msg.append(t.as_str());
        msg.append(", got ");
        let s = data_type_to_string(source);
        msg.append(s.as_str());
        self.error(msg.as_str());
        false
    }

    fn register_trait_if_absent(&mut self, name: &str, methods: Vec<&str>, param_count: usize)
        ensures
            final(self)@ == (AnalyzerView {
                traits: if old(self)@.traits.contains_key(name@) {
                    old(self)@.traits
                } else {
                    old(self)@.traits.insert(
                        name@,
                        std_trait_view(name@, methods@.map_values(|m: &str| m@), param_count as nat),
                    )
                },
                ..old(self)@
            }),
    {
        if self.trait_defs.contains_key(name) {
            return;
        }
        let mut sigs: Vec<TraitMethodSig> = Vec::new();
        let mut i: usize = 0;
        while i < methods.len()
            invariant
                i <= methods@.len(),
                sigs@.len() == i,
                forall|k: int| 0 <= k < i ==> (#[trigger] sigs@[k])@ == (methods@[k]@, param_count as nat, false),
            decreases methods@.len() - i,
        {
            sigs.push(TraitMethodSig { name: owned(methods[i]), param_count, dynamic: false });
            i = i + 1;
        }
        let mut generic_params: Vec<String> = Vec::new();
        generic_params.push(owned("T"));
        let info = TraitDefInfo { name: owned(name), methods: sigs, generic_params };
        assert(info@.methods =~= methods@.map_values(|m: &str| m@).map_values(|m: Seq<char>| (m, param_count as nat, false)));
        assert(info@.generic_params =~= seq!["T"@]);
        assert(info@ == std_trait_view(name@, methods@.map_values(|m: &str| m@), param_count as nat));
        self.trait_defs.insert(owned(name), info);
        assert(self@.traits =~= old(self)@.traits.insert(
            name@,
            std_trait_view(name@, methods@.map_values(|m: &str| m@), param_count as nat),
        ));
    }

    /// Registers the operator and comparison traits built into the
    /// language, keeping any trait already registered under the same name.
    pub fn register_std_traits(&mut self)
        ensures
            final(self)@ == (AnalyzerView { traits: std_traits().union_prefer_right(old(self)@.traits), ..old(self)@ }),
    {
        proof {
            reveal_strlit("std::ops::Add");
            reveal_strlit("std::ops::Sub");
            reveal_strlit("std::ops::Mul");
            reveal_strlit("std::ops::Div");
            reveal_strlit("std::ops::Rem");
            reveal_strlit("std::cmp::Eq");
            reveal_strlit("std::cmp::Cmp");
            reveal_strlit("std::mem::Drop");
        }
        let methods = vec!["add"];
        assert(methods@.map_values(|m: &str| m@) =~= seq!["add"@]);
        self.register_trait_if_absent("std::ops::Add", methods, 2);
        let methods = vec!["sub"];
        assert(methods@.map_values(|m: &str| m@) =~= seq!["sub"@]);
        self.register_trait_if_absent("std::ops::Sub", methods, 2);
        let methods = vec!["mul"];
        assert(methods@.map_values(|m: &str| m@) =~= seq!["mul"@]);
        self.register_trait_if_absent("std::ops::Mul", methods, 2);
        let methods = vec!["div"];
        assert(methods@.map_values(|m: &str| m@) =~= seq!["div"@]);
        self.register_trait_if_absent("std::ops::Div", methods, 2);
        let methods = vec!["rem"];
        assert(methods@.map_values(|m: &str| m@) =~= seq!["rem"@]);
        self.register_trait_if_absent("std::ops::Rem", methods, 2);
        let methods = vec!["eq"];
        assert(methods@.map_values(|m: &str| m@) =~= seq!["eq"@]);
        self.register_trait_if_absent("std::cmp::Eq", methods, 2);
        let methods = vec!["lt", "le", "gt", "ge"];
        assert(methods@.map_values(|m: &str| m@) =~= seq!["lt"@, "le"@, "gt"@, "ge"@]);
        self.register_trait_if_absent("std::cmp::Cmp", methods, 2);
        let methods = vec!["drop"];
        assert(methods@.map_values(|m: &str| m@) =~= seq!["drop"@]);
        self.register_trait_if_absent("std::mem::Drop", methods, 1);
        proof {
            lemma_std_traits(old(self)@.traits);
        }
    }

    /// Validates every pending `impl Trait for Type` block, now that all
    /// traits are known: an undefined trait, and each method the trait
    /// requires that the block does not provide, is an error.
    pub fn validate_trait_impls(&mut self)
        ensures
            final(self)@ == with_errors(
                AnalyzerView { pending: Seq::empty(), ..old(self)@ },
                trait_impl_errors(old(self)@.pending, old(self)@.traits),
            ),
    {
        let mut pending: Vec<(String, String, Vec<String>)> = Vec::new();
        std::mem::swap(&mut pending, &mut self.pending_trait_impls);
        let ghost start = self@;
        let ghost pv = old(self)@.pending;
        assert(start == AnalyzerView { pending: Seq::empty(), ..old(self)@ }) by {
            assert(self@.pending =~= Seq::<(Seq<char>, Seq<char>, Seq<Seq<char>>)>::empty());
        }
        assert(pv.take(0) =~= Seq::<(Seq<char>, Seq<char>, Seq<Seq<char>>)>::empty());
        let mut i: usize = 0;
        while i < pending.len()
            invariant
                i <= pending@.len(),
                pv == pending@.map_values(|p: (String, String, Vec<String>)| (p.0@, p.1@, texts(p.2@))),
                self@.traits == start.traits,
                self@ == with_errors(start, trait_impl_errors(pv.take(i as int), start.traits)),
            decreases pending@.len() - i,
        {
            let struct_name = &pending[i].0;
            let trait_name = &pending[i].1;
            let provided = &pending[i].2;
            let ghost before = trait_impl_errors(pv.take(i as int), start.traits);
            assert(pv.take(i + 1).drop_last() =~= pv.take(i as int));
            assert(pv.take(i + 1).last() == pv[i as int]);
            if !self.trait_defs.contains_key(trait_name.as_str()) {
                let mut msg = owned("Trait '");
                msg.append(trait_name.as_str());
                msg.append("' is not defined (impl for '");
                msg.append(struct_name.as_str());
                msg.append("')");
                self.error(msg.as_str());
                proof {
                    lemma_with_errors_push(start, before, msg@);
                    assert(before.push(msg@) =~= trait_impl_errors(pv.take(i + 1), start.traits));
                }
            } else {
                let ghost cur = self@;
                self.report_missing_methods(trait_name.as_str(), struct_name.as_str(), provided);
                proof {
                    let missing = missing_methods(trait_name@, struct_name@, start.traits[trait_name@].methods, texts(provided@));
                    lemma_with_errors_concat(start, before, missing);
                    lemma_with_errors_frame(cur, missing);
                }
            }
            i = i + 1;
        }
        assert(pv.take(i as int) =~= pv);
    }

    fn is_generic_param(&self, name: &str) -> (r: bool)
        ensures
            r == self@.generics.contains(name@),
    {
        names_contain(&self.current_generic_params, name)
    }

    /// The type a type annotation denotes (`none` for no annotation); each
    /// unknown name in it is reported as `Unknown type: <name>`.
    pub fn get_data_type_from_ast(&mut self, tp: Option<&TypeNode>) -> (t: DataType)
        ensures
            match tp {
                None => t@ == TypeView::None_ && final(self)@ == old(self)@,
                Some(node) => {
                    let (v, unknown) = ast_type(*node, old(self)@.generics, old(self)@.struct_fields.dom());
                    &&& t@ == v
                    &&& final(self)@ == with_errors(old(self)@, unknown_type_errors(unknown))
                },
            },
    {
        match tp {
            Some(node) => self.node_data_type(node),
            None => DataType::None_,
        }
    }

    fn node_data_type(&mut self, node: &TypeNode) -> (t: DataType)
        ensures
            ({
                let (v, unknown) = ast_type(*node, old(self)@.generics, old(self)@.struct_fields.dom());
                &&& t@ == v
                &&& final(self)@ == with_errors(old(self)@, unknown_type_errors(unknown))
            }),
        decreases node,
    {
        let ghost before = self@;
        match node {
            TypeNode::Generic { base, args } => {
                if str_eq(base.as_str(), "vec") && args.len() > 0 {
                    proof {
                        assert(decreases_to!(node => args@[0]));
                    }
                    return self.node_data_type(&args[0]);
                }
                proof {
                    assert(unknown_type_errors(Seq::empty()) =~= Seq::<Seq<char>>::empty());
                }
                DataType::Struct(base.clone())
            },
            TypeNode::Nullable(inner) => {
                let t = self.node_data_type(&**inner);
                DataType::Nullable(Box::new(t))
            },
            TypeNode::Function => {
                proof {
                    assert(unknown_type_errors(Seq::empty()) =~= Seq::<Seq<char>>::empty());
                }
                DataType::Unknown
            },
            TypeNode::Array { element, .. } => {
                let t = self.node_data_type(&**element);
                DataType::Array(Box::new(t))
            },
            TypeNode::Basic(name) => {
                proof {
                    assert(unknown_type_errors(Seq::empty()) =~= Seq::<Seq<char>>::empty());
                }
                if str_eq(name.as_str(), "int") {
                    return DataType::Int;
                }
                if str_eq(name.as_str(), "float") {
                    return DataType::Float;
                }
                if str_eq(name.as_str(), "str") {
                    return DataType::Str;
                }
                if str_eq(name.as_str(), "bool") {
                    return DataType::Bool;
                }
                if self.is_generic_param(name.as_str()) {
                    return DataType::Struct(name.clone());
                }
                if self.struct_fields.contains_key(name.as_str()) {
                    assert(self@.struct_fields.dom().contains(name@));
                    return DataType::Struct(name.clone());
                }
                assert(!self@.struct_fields.dom().contains(name@));
                let mut msg = owned("Unknown type: ");
                msg.append(name.as_str());
                self.error(msg.as_str());
                proof {
                    assert(unknown_type_errors(seq![name@]) =~= seq![msg@]);
                    lemma_with_errors_push(before, Seq::empty(), msg@);
                    assert(Seq::<Seq<char>>::empty().push(msg@) =~= seq![msg@]);
                }
                DataType::Unknown
            },
        }
    }

    /// Whether a C header's text declares a function of this name: the name
    /// followed by `(`, white space allowed between, with no identifier
    /// character just before it (so `printf` is not found in `fprintf`).
    pub fn header_declares_function(header: &str, name: &str) -> (r: bool)
        ensures
            r == header_declares(header.spec_bytes(), name.spec_bytes()),
    {
        let b = header.as_bytes();
        let n = name.as_bytes();
        if n.len() == 0 {
            return false;
        }
        let mut i: usize = 0;
        while i <= b.len() && n.len() <= b.len() - i
            invariant
                b@ == header.spec_bytes(),
                n@ == name.spec_bytes(),
                n@.len() > 0,
                forall|k: int| 0 <= k < i ==> !declared_at(b@, n@, k),
            decreases b@.len() - i,
        {
            if bytes_match_at_exec(b, n, i) {
                let prev_ok = i == 0 || {
                    let c = b[i - 1];
                    !((48 <= c && c <= 57) || (65 <= c && c <= 90) || (97 <= c && c <= 122) || c == 95)
                };
                let start = i + n.len();
                let mut j: usize = start;
                while j < b.len() && (b[j] == 32 || b[j] == 9 || b[j] == 13 || b[j] == 10 || b[j] == 11 || b[j] == 12)
                    invariant
                        start <= j <= b@.len(),
                        forall|m: int| start <= m < j ==> c_space(b@[m]),
                    decreases b@.len() - j,
                {
                    j = j + 1;
                }
                let next_ok = j < b.len() && b[j] == 40;
                proof {
                    if paren_follows(b@, start as int) {
                        let k = choose|k: int| start <= k < b@.len() && b@[k] == 40 && forall|m: int| start <= m < k ==> c_space(b@[m]);
                        if k > j {
                            assert(c_space(b@[j as int]));
                        }
                    }
                }
                if prev_ok && next_ok {
                    assert(paren_follows(b@, start as int)) by {
                        assert(start <= j < b@.len() && b@[j as int] == 40);
                    }
                    assert(declared_at(b@, n@, i as int));
                    return true;
                }
            }
            i = i + 1;
        }
        proof {
            if header_declares(b@, n@) {
                let k = choose|k: int| declared_at(b@, n@, k);
                assert(k < i);
            }
        }
        false
    }

    /// Records where the module being analysed lives: its name is the file
    /// stem (`main` when there is none), and its directory, the path's
    /// parent when there is one, is where relative imports are resolved.
    pub fn set_module_location(&mut self, stem: Option<String>, parent: Option<String>)
        ensures
            final(self)@ == (AnalyzerView {
                module: match opt_text(stem) {
                    Some(s) => s,
                    None => "main"@,
                },
                module_dir: match opt_text(parent) {
                    Some(p) => Some(p),
                    None => old(self)@.module_dir,
                },
                ..old(self)@
            }),
    {
        match stem {
            Some(s) => {
                self.current_module = s;
            },
            None => {
                self.current_module = owned("main");
            },
        }
        match parent {
            Some(p) => {
                self.current_module_dir = Some(p);
            },
            None => {},
        }
    }

    /// Takes the module's name and directory from the path of the main
    /// file (see `set_module_location`).
    pub fn set_main_file(&mut self, file_path: &str)
        ensures
            final(self)@ == (AnalyzerView {
                module: final(self)@.module,
                module_dir: final(self)@.module_dir,
                ..old(self)@
            }),
            final(self)@.module_dir is None ==> old(self)@.module_dir is None,
            ordinary_path(file_path@) ==> final(self)@.module == name_stem(last_component(file_path@))
                && final(self)@.module_dir == Some(parent_dir(file_path@)),
    {
        let stem = path_file_stem(file_path);
        let parent = path_parent(file_path);
        self.set_module_location(stem, parent);
    }

    /// The files where a module whose path is `path_parts` is looked for,
    /// in order of preference (see `module_candidates`).
    pub fn module_path_candidates(&self, path_parts: &Vec<String>, base_dir: Option<&str>) -> (r: Vec<String>)
        ensures
            texts(r@) == module_candidates(texts(path_parts@), match base_dir {
                Some(d) => Some(d@),
                None => None,
            }, self@.lib_paths),
    {
        let joined = join_strings(path_parts, "/");
        let mut relative = owned(joined.as_str());
        relative.append(".gbl");
        let mut r: Vec<String> = Vec::new();
        match base_dir {
            Some(d) => {
                push_text(&mut r, concat3(d, "/", relative.as_str()));
                let mut m = concat3(d, "/", joined.as_str());
                m.append("/mod.gbl");
                push_text(&mut r, m);
                let mut st = concat3(d, "/", joined.as_str());
                st.append("/__setup__.gbl");
                push_text(&mut r, st);
                push_text(&mut r, concat3(d, "/lib/", relative.as_str()));
            },
            None => {},
        }
        let ghost local = texts(r@);
        let ghost lp = self@.lib_paths;
        let mut i: usize = 0;
        assert(lp.take(0) =~= Seq::<Seq<char>>::empty());
        assert(local + lib_candidates(joined@, lp.take(0)) =~= local);
        while i < self.lib_paths.len()
            invariant
                i <= self.lib_paths@.len(),
                lp == texts(self.lib_paths@),
                joined@ == join_seq(texts(path_parts@), "/"@),
                relative@ == joined@ + ".gbl"@,
                texts(r@) == local + lib_candidates(joined@, lp.take(i as int)),
            decreases self.lib_paths@.len() - i,
        {
            let ghost before = texts(r@);
            let l = self.lib_paths[i].as_str();
            push_text(&mut r, concat3(l, "/", relative.as_str()));
            let mut m = concat3(l, "/", joined.as_str());
            m.append("/mod.gbl");
            push_text(&mut r, m);
            let mut st = concat3(l, "/", joined.as_str());
            st.append("/__setup__.gbl");
            push_text(&mut r, st);
            push_text(&mut r, concat3(l, "/src/", relative.as_str()));
            push_text(&mut r, concat3(l, "/lib/", relative.as_str()));
            assert(lp.take(i + 1).drop_last() =~= lp.take(i as int));
            assert(lp.take(i + 1).last() == lp[i as int]);
            assert(texts(r@) =~= local + lib_candidates(joined@, lp.take(i + 1)));
            i = i + 1;
        }
        assert(lp.take(i as int) =~= lp);
        push_text(&mut r, relative);
        let mut m = owned(joined.as_str());
        m.append("/mod.gbl");
        push_text(&mut r, m);
        let mut st = owned(joined.as_str());
        st.append("/__setup__.gbl");
        push_text(&mut r, st);
        assert(texts(r@) =~= module_candidates(texts(path_parts@), match base_dir {
            Some(d) => Some(d@),
            None => None,
        }, self@.lib_paths));
        r
    }

    fn set_generics(&mut self, g: Vec<String>)
        ensures
            final(self)@ == (AnalyzerView { generics: texts(g@), ..old(self)@ }),
    {
        self.current_generic_params = g;
    }

    fn declare_module_name(&mut self, name: &str)
        ensures
            final(self)@ == (AnalyzerView { scopes: final(self)@.scopes, ..old(self)@ }),
            scopes_kept(old(self)@.scopes, final(self)@.scopes),
            final(self)@.scopes.len() > 0,
            final(self)@.scopes[0].contains_key(name@),
            declared_as(old(self)@.scopes, final(self)@.scopes, map![name@ => Decl::Module]),
    {
        let ghost s = with_global(self.env@);
        self.env.declare_module(name);
        proof {
            if s[0].contains_key(name@) {
                assert(scopes_kept(old(self)@.scopes, self@.scopes));
                lemma_declared_as_none(old(self)@.scopes);
                assert(with_global(self@.scopes) == with_global(old(self)@.scopes));
            } else {
                lemma_declared_keeps(old(self)@.scopes, self@.scopes, 0, name@, true);
                lemma_declared_in_as(old(self)@.scopes, self@.scopes, name@, true, Decl::Module);
            }
        }
    }

    fn declare_function_name(&mut self, name: &str, return_type: &DataType, module: &str)
        ensures
            final(self)@ == (AnalyzerView { scopes: final(self)@.scopes, ..old(self)@ }),
            scopes_kept(old(self)@.scopes, final(self)@.scopes),
            final(self)@.scopes.len() > 0,
            final(self)@.scopes[0].contains_key(module@ + "."@ + name@),
            declared_as(
                old(self)@.scopes,
                final(self)@.scopes,
                map![module@ + "."@ + name@ => fn_decl(name@, return_type@, module@)],
            ),
    {
        let accepted = self.env.declare_function(name, return_type, module);
        proof {
            lemma_declared_keeps(old(self)@.scopes, self@.scopes, 0, module@ + "."@ + name@, accepted);
            lemma_declared_in_as(old(self)@.scopes, self@.scopes, module@ + "."@ + name@, accepted, fn_decl(name@, return_type@, module@));
        }
    }
}

/// What `declare_builtins` declares in module `m`, in order.
pub open spec fn builtin_decls(m: Seq<char>, has_ref: bool) -> Map<Seq<char>, Decl> {
    let d0 = map![m + "."@ + "panic"@ => fn_decl("panic"@, TypeView::None_, m)];
    let d1 = first_wins(d0, m + "."@ + "exit"@, fn_decl("exit"@, TypeView::None_, m));
    let d2 = first_wins(d1, m + "."@ + "gobol_array_elem_addr"@, fn_decl("gobol_array_elem_addr"@, TypeView::Int, m));
    let d3 = first_wins(d2, m + "."@ + "__new_array"@, fn_decl("__new_array"@, TypeView::Unknown, m));
    if has_ref {
        d3
    } else {
        first_wins(d3, "Ref"@, Decl::Module)
    }
}

impl SemanticAnalyzer {
    /// Declares what every program can use without importing it, before
    /// anything else is analysed: the functions `panic` and `exit`
    /// (returning nothing), the runtime's `gobol_array_elem_addr` (an
    /// `int`) and `__new_array` (of unknown type), all in the current
    /// module; and, unless a struct `Ref` is known already, the struct `Ref`
    /// with one field `_ptr` of unknown type, its name declared.
    pub fn declare_builtins(&mut self)
        ensures
            final(self)@ == (AnalyzerView {
                scopes: final(self)@.scopes,
                struct_fields: if old(self)@.struct_fields.contains_key("Ref"@) {
                    old(self)@.struct_fields
                } else {
                    old(self)@.struct_fields.insert("Ref"@, map!["_ptr"@ => TypeView::Unknown])
                },
                ..old(self)@
            }),
            scopes_kept(old(self)@.scopes, final(self)@.scopes),
            in_global(final(self)@.scopes, old(self)@.module + "."@ + "panic"@),
            in_global(final(self)@.scopes, old(self)@.module + "."@ + "exit"@),
            in_global(final(self)@.scopes, old(self)@.module + "."@ + "gobol_array_elem_addr"@),
            in_global(final(self)@.scopes, old(self)@.module + "."@ + "__new_array"@),
            !old(self)@.struct_fields.contains_key("Ref"@) ==> in_global(final(self)@.scopes, "Ref"@),
            declared_as(
                old(self)@.scopes,
                final(self)@.scopes,
                builtin_decls(old(self)@.module, old(self)@.struct_fields.contains_key("Ref"@)),
            ),
    {
        let m = self.current_module.clone();
        let ghost s0 = self@.scopes;
        self.declare_function_name("panic", &DataType::None_, m.as_str());
        let ghost s1 = self@.scopes;
        self.declare_function_name("exit", &DataType::None_, m.as_str());
        let ghost s2 = self@.scopes;
        self.declare_function_name("gobol_array_elem_addr", &DataType::Int, m.as_str());
        let ghost s3 = self@.scopes;
        self.declare_function_name("__new_array", &DataType::Unknown, m.as_str());
        let ghost s4 = self@.scopes;
        proof {
            lemma_scopes_kept_trans(s0, s1, s2);
            lemma_scopes_kept_trans(s0, s2, s3);
            lemma_scopes_kept_trans(s0, s3, s4);
            lemma_scopes_kept_key(s1, s4, m@ + "."@ + "panic"@);
            lemma_scopes_kept_trans(s1, s2, s3);
            lemma_scopes_kept_trans(s1, s3, s4);
            lemma_scopes_kept_key(s2, s4, m@ + "."@ + "exit"@);
            lemma_scopes_kept_trans(s2, s3, s4);
            lemma_scopes_kept_key(s3, s4, m@ + "."@ + "gobol_array_elem_addr"@);
            let d0 = map![m@ + "."@ + "panic"@ => fn_decl("panic"@, TypeView::None_, m@)];
            let d1 = first_wins(d0, m@ + "."@ + "exit"@, fn_decl("exit"@, TypeView::None_, m@));
            let d2 = first_wins(d1, m@ + "."@ + "gobol_array_elem_addr"@, fn_decl("gobol_array_elem_addr"@, TypeView::Int, m@));
            lemma_declared_as_then(s0, s1, s2, d0, m@ + "."@ + "exit"@, fn_decl("exit"@, TypeView::None_, m@));
            lemma_declared_as_then(s0, s2, s3, d1, m@ + "."@ + "gobol_array_elem_addr"@, fn_decl("gobol_array_elem_addr"@, TypeView::Int, m@));
            lemma_declared_as_then(s0, s3, s4, d2, m@ + "."@ + "__new_array"@, fn_decl("__new_array"@, TypeView::Unknown, m@));
        }
        if !self.struct_fields.contains_key("Ref") {
            let mut fields: Table<DataType> = Table::new();
            fields.insert(owned("_ptr"), DataType::Unknown);
            let ghost before = self@;
            self.struct_fields.insert(owned("Ref"), fields);
            assert(fields@.map_values(|d: DataType| d@) =~= map!["_ptr"@ => TypeView::Unknown]);
            assert(self@.struct_fields =~= before.struct_fields.insert("Ref"@, map!["_ptr"@ => TypeView::Unknown]));
            self.declare_module_name("Ref");
            proof {
                lemma_scopes_kept_trans(s0, s4, self@.scopes);
                lemma_scopes_kept_key(s4, self@.scopes, m@ + "."@ + "panic"@);
                lemma_scopes_kept_key(s4, self@.scopes, m@ + "."@ + "exit"@);
                lemma_scopes_kept_key(s4, self@.scopes, m@ + "."@ + "gobol_array_elem_addr"@);
                lemma_scopes_kept_key(s4, self@.scopes, m@ + "."@ + "__new_array"@);
                lemma_declared_as_then(s0, s4, self@.scopes, builtin_decls(m@, true), "Ref"@, Decl::Module);
            }
        }
    }

    /// Records a struct's fields and their types (read with the struct's
    /// generic parameters in scope, unknown ones reported) and declares its
    /// name.
    pub fn visit_struct_definition(&mut self, node: &StructDefinition)
        ensures
            final(self)@ == (AnalyzerView { scopes: final(self)@.scopes, ..struct_visited(old(self)@, *node) }),
            scopes_kept(old(self)@.scopes, final(self)@.scopes),
            declared_as(old(self)@.scopes, final(self)@.scopes, map![node.name@ => Decl::Module]),
            final(self)@.scopes.len() > 0,
            final(self)@.scopes[0].contains_key(node.name@),
    {
        let prev = clone_strings(&self.current_generic_params);
        self.set_generics(clone_strings(&node.generic_params));
        let ghost start = self@;
        let ghost generics = texts(node.generic_params@);
        let ghost structs = old(self)@.struct_fields.dom();
        let mut fields: Table<DataType> = Table::new();
        let mut i: usize = 0;
        assert(node.fields@.take(0) =~= Seq::<StructField>::empty());
        assert(fields@.map_values(|d: DataType| d@) =~= Map::<Seq<char>, TypeView>::empty());
        assert(unknown_type_errors(Seq::empty()) =~= Seq::<Seq<char>>::empty());
        while i < node.fields.len()
            invariant
                i <= node.fields@.len(),
                start.generics == generics,
                start.struct_fields.dom() == structs,
                self@.generics == generics,
                self@.struct_fields == start.struct_fields,
                fields@.map_values(|d: DataType| d@) == field_types(node.fields@.take(i as int), generics, structs).0,
                self@ == with_errors(start, unknown_type_errors(field_types(node.fields@.take(i as int), generics, structs).1)),
            decreases node.fields@.len() - i,
        {
            let ghost before = field_types(node.fields@.take(i as int), generics, structs);
            let f = &node.fields[i];
            let ghost st = self@;
            let t = match &f.field_type {
                Some(b) => self.node_data_type(&**b),
                None => DataType::None_,
            };
            let ghost after_t = opt_ast_type(f.field_type, generics, structs);
            proof {
                if f.field_type is None {
                    assert(unknown_type_errors(Seq::empty()) =~= Seq::<Seq<char>>::empty());
                    assert(with_errors(st, Seq::empty()) == st);
                }
                lemma_unknown_errors_concat(before.1, after_t.1);
                lemma_with_errors_concat(start, unknown_type_errors(before.1), unknown_type_errors(after_t.1));
                lemma_with_errors_frame(start, unknown_type_errors(before.1 + after_t.1));
            }
            fields.insert(f.name.clone(), t);
            assert(node.fields@.take(i + 1).drop_last() =~= node.fields@.take(i as int));
            assert(node.fields@.take(i + 1).last() == node.fields@[i as int]);
            assert(fields@.map_values(|d: DataType| d@) =~= before.0.insert(f.name@, after_t.0));
            i = i + 1;
        }
        assert(node.fields@.take(i as int) =~= node.fields@);
        proof {
            let unknown = field_types(node.fields@, generics, structs).1;
            lemma_with_errors_frame(start, unknown_type_errors(unknown));
            lemma_with_errors_frame(old(self)@, unknown_type_errors(unknown));
            lemma_with_errors_same(start, old(self)@, unknown_type_errors(unknown));
        }
        let ghost fv = fields@.map_values(|d: DataType| d@);
        self.struct_fields.insert(node.name.clone(), fields);
        assert(self@.struct_fields =~= start.struct_fields.insert(node.name@, fv));
        self.declare_module_name(node.name.as_str());
        self.set_generics(prev);
    }

    /// Lowers an enum to a tagged struct (`_tag`, then `_<i>` for each
    /// payload, read with the enum's generic parameters in scope), declares
    /// the enum's name, and declares each variant as a constructor returning
    /// the enum, both in the enum's namespace and as `<enum>::<variant>`.
    pub fn visit_enum_definition(&mut self, node: &EnumDefinition)
        ensures
            final(self)@ == (AnalyzerView { scopes: final(self)@.scopes, ..enum_visited(old(self)@, *node) }),
            scopes_kept(old(self)@.scopes, final(self)@.scopes),
            final(self)@.scopes.len() > 0,
            enum_declares(final(self)@.scopes[0], old(self)@.module, *node),
            declared_as(old(self)@.scopes, final(self)@.scopes, enum_decls(old(self)@.module, *node)),
    {
        let prev = clone_strings(&self.current_generic_params);
        self.set_generics(clone_strings(&node.generic_params));
        let ghost start = self@;
        let ghost generics = texts(node.generic_params@);
        let ghost structs = old(self)@.struct_fields.dom();
        let mut fields: Table<DataType> = Table::new();
        fields.insert(owned("_tag"), DataType::Int);
        let mut i: usize = 0;
        assert(node.variants@.take(0) =~= Seq::<EnumVariant>::empty());
        assert(fields@.map_values(|d: DataType| d@) =~= map!["_tag"@ => TypeView::Int]);
        assert(unknown_type_errors(Seq::empty()) =~= Seq::<Seq<char>>::empty());
        while i < node.variants.len()
            invariant
                i <= node.variants@.len(),
                start.generics == generics,
                start.struct_fields.dom() == structs,
                self@.generics == generics,
                self@.struct_fields == start.struct_fields,
                fields@.map_values(|d: DataType| d@) == variant_fields(node.variants@.take(i as int), generics, structs).0,
                self@ == with_errors(start, unknown_type_errors(variant_fields(node.variants@.take(i as int), generics, structs).1)),
            decreases node.variants@.len() - i,
        {
            let ghost before = variant_fields(node.variants@.take(i as int), generics, structs);
            assert(node.variants@.take(i + 1).drop_last() =~= node.variants@.take(i as int));
            assert(node.variants@.take(i + 1).last() == node.variants@[i as int]);
            let v = &node.variants[i];
            match &v.payload_type {
                Some(p) => {
                    let t = self.node_data_type(&**p);
                    let ghost more = ast_type(**p, generics, structs).1;
                    proof {
                        lemma_unknown_errors_concat(before.1, more);
                        lemma_with_errors_concat(start, unknown_type_errors(before.1), unknown_type_errors(more));
                        lemma_with_errors_frame(start, unknown_type_errors(before.1 + more));
                    }
                    let mut key = owned("_");
                    append_nat(&mut key, i as u64);
                    let ghost kv = key@;
                    fields.insert(key, t);
                    assert(fields@.map_values(|d: DataType| d@) =~= before.0.insert(kv, ast_type(**p, generics, structs).0));
                },
                None => {},
            }
            i = i + 1;
        }
        assert(node.variants@.take(i as int) =~= node.variants@);
        proof {
            let unknown = variant_fields(node.variants@, generics, structs).1;
            lemma_with_errors_frame(start, unknown_type_errors(unknown));
            lemma_with_errors_frame(old(self)@, unknown_type_errors(unknown));
            lemma_with_errors_same(start, old(self)@, unknown_type_errors(unknown));
        }
        let ghost fv = fields@.map_values(|d: DataType| d@);
        self.struct_fields.insert(node.name.clone(), fields);
        assert(self@.struct_fields =~= start.struct_fields.insert(node.name@, fv));
        let ghost mid = self@;
        self.declare_module_name(node.name.as_str());
        let ghost module = old(self)@.module;
        let mut j: usize = 0;
        assert(node.variants@.take(0) =~= Seq::<EnumVariant>::empty());
        while j < node.variants.len()
            invariant
                j <= node.variants@.len(),
                self@.module == module,
                self@ == (AnalyzerView { scopes: self@.scopes, ..mid }),
                scopes_kept(old(self)@.scopes, self@.scopes),
                self@.scopes.len() > 0,
                self@.scopes[0].contains_key(node.name@),
                declared_as(
                    old(self)@.scopes,
                    self@.scopes,
                    variant_decls(map![node.name@ => Decl::Module], module, node.name@, node.variants@.take(j as int)),
                ),
                forall|k: int| 0 <= k < j ==> {
                    &&& self@.scopes[0].contains_key(node.name@ + "."@ + (#[trigger] node.variants@[k]).name@)
                    &&& self@.scopes[0].contains_key(module + "."@ + node.name@ + "::"@ + node.variants@[k].name@)
                },
            decreases node.variants@.len() - j,
        {
            let ghost s0 = self@.scopes;
            let ctor = node.variants[j].name.as_str();
            let ret = DataType::Struct(node.name.clone());
            self.declare_function_name(ctor, &ret, node.name.as_str());
            let mut qualified = owned(node.name.as_str());
            qualified.append("::");
            qualified.append(ctor);
            let m = self.current_module.clone();
            let ghost s1 = self@.scopes;
            self.declare_function_name(qualified.as_str(), &ret, m.as_str());
            proof {
                lemma_scopes_kept_trans(s0, s1, self@.scopes);
                lemma_scopes_kept_trans(old(self)@.scopes, s0, self@.scopes);
                let k1 = node.name@ + "."@ + node.variants@[j as int].name@;
                let k2 = module + "."@ + node.name@ + "::"@ + node.variants@[j as int].name@;
                assert(s1[0].contains_key(k1));
                assert(m@ + "."@ + qualified@ =~= k2);
                assert(qualified@ =~= node.name@ + "::"@ + node.variants@[j as int].name@);
                let acc = variant_decls(map![node.name@ => Decl::Module], module, node.name@, node.variants@.take(j as int));
                let ret = TypeView::Struct(node.name@);
                lemma_declared_as_then(old(self)@.scopes, s0, s1, acc, k1, fn_decl(node.variants@[j as int].name@, ret, node.name@));
                lemma_declared_as_then(
                    old(self)@.scopes,
                    s1,
                    self@.scopes,
                    first_wins(acc, k1, fn_decl(node.variants@[j as int].name@, ret, node.name@)),
                    k2,
                    fn_decl(node.name@ + "::"@ + node.variants@[j as int].name@, ret, module),
                );
                assert(node.variants@.take(j + 1).drop_last() =~= node.variants@.take(j as int));
                assert(self@.scopes[0].contains_key(k1));
                assert forall|k: int| 0 <= k < j + 1 implies {
                    &&& self@.scopes[0].contains_key(node.name@ + "."@ + (#[trigger] node.variants@[k]).name@)
                    &&& self@.scopes[0].contains_key(module + "."@ + node.name@ + "::"@ + node.variants@[k].name@)
                } by {
                    if k < j {
                        assert(s0[0].contains_key(node.name@ + "."@ + node.variants@[k].name@));
                        assert(s0[0].contains_key(module + "."@ + node.name@ + "::"@ + node.variants@[k].name@));
                    }
                }
            }
            j = j + 1;
        }
        assert(node.variants@.take(j as int) =~= node.variants@);
        self.set_generics(prev);
    }

    /// The generic parameters in scope followed by those of `extra` not
    /// among them yet.
    fn combined_generics(&self, extra: &Vec<String>) -> (r: Vec<String>)
        ensures
            texts(r@) == combine_generics(self@.generics, texts(extra@)),
    {
        let mut r = clone_strings(&self.current_generic_params);
        let mut i: usize = 0;
        assert(texts(extra@).take(0) =~= Seq::<Seq<char>>::empty());
        while i < extra.len()
            invariant
                i <= extra@.len(),
                texts(r@) == combine_generics(self@.generics, texts(extra@).take(i as int)),
            decreases extra@.len() - i,
        {
            assert(texts(extra@).take(i + 1).drop_last() =~= texts(extra@).take(i as int));
            assert(texts(extra@).take(i + 1).last() == extra@[i as int]@);
            if !names_contain(&r, extra[i].as_str()) {
                push_text(&mut r, extra[i].clone());
            }
            i = i + 1;
        }
        assert(texts(extra@).take(i as int) =~= texts(extra@));
        r
    }

    /// Reads a function's return type with `generics` in scope and declares
    /// the function in the current module, and in `owner`'s namespace when
    /// there is an owner; the generic parameters in scope are then restored.
    fn declare_signature(&mut self, f: &Function, generics: Vec<String>, owner: Option<&str>)
        ensures
            final(self)@ == (AnalyzerView { scopes: final(self)@.scopes, ..signature_read(old(self)@, *f, texts(generics@)) }),
            final(self)@ == (AnalyzerView {
                scopes: final(self)@.scopes,
                diagnostics: final(self)@.diagnostics,
                failed: final(self)@.failed,
                positions: final(self)@.positions,
                ..old(self)@
            }),
            scopes_kept(old(self)@.scopes, final(self)@.scopes),
            final(self)@.scopes.len() > 0,
            final(self)@.scopes[0].contains_key(old(self)@.module + "."@ + f.name@),
            owner matches Some(o) ==> final(self)@.scopes[0].contains_key(o@ + "."@ + f.name@),
            declared_as(
                old(self)@.scopes,
                final(self)@.scopes,
                sig_decls(
                    old(self)@.module,
                    match owner {
                        Some(o) => Some(o@),
                        None => None,
                    },
                    f.name@,
                    opt_ast_type(f.return_type, texts(generics@), old(self)@.struct_fields.dom()).0,
                ),
            ),
    {
        let prev = clone_strings(&self.current_generic_params);
        let ghost g = texts(generics@);
        self.set_generics(generics);
        let ghost start = self@;
        let t = match &f.return_type {
            Some(b) => self.node_data_type(&**b),
            None => DataType::None_,
        };
        proof {
            let unknown = opt_ast_type(f.return_type, g, old(self)@.struct_fields.dom()).1;
            if f.return_type is None {
                assert(unknown_type_errors(Seq::empty()) =~= Seq::<Seq<char>>::empty());
            }
            lemma_with_errors_frame(start, unknown_type_errors(unknown));
            lemma_with_errors_frame(old(self)@, unknown_type_errors(unknown));
            lemma_with_errors_same(start, old(self)@, unknown_type_errors(unknown));
        }
        let m = self.current_module.clone();
        let ghost s0 = self@.scopes;
        let ghost ret = opt_ast_type(f.return_type, g, old(self)@.struct_fields.dom()).0;
        assert(t@ == ret);
        self.declare_function_name(f.name.as_str(), &t, m.as_str());
        let ghost s1 = self@.scopes;
        match owner {
            Some(o) => {
                self.declare_function_name(f.name.as_str(), &t, o);
                proof {
                    lemma_scopes_kept_key(s1, self@.scopes, m@ + "."@ + f.name@);
                    lemma_scopes_kept_trans(s0, s1, self@.scopes);
                    lemma_declared_as_then(
                        s0,
                        s1,
                        self@.scopes,
                        map![m@ + "."@ + f.name@ => fn_decl(f.name@, ret, m@)],
                        o@ + "."@ + f.name@,
                        fn_decl(f.name@, ret, o@),
                    );
                }
            },
            None => {},
        }
        self.set_generics(prev);
    }

    /// Records a trait: its methods with their parameter counts and
    /// whether they are `#[dynamic]`, and its generic parameters.
    pub fn visit_trait_definition(&mut self, node: &TraitDefinition)
        ensures
            final(self)@ == (AnalyzerView { traits: old(self)@.traits.insert(node.name@, trait_view_of(*node)), ..old(self)@ }),
    {
        let mut methods: Vec<TraitMethodSig> = Vec::new();
        let mut i: usize = 0;
        while i < node.methods.len()
            invariant
                i <= node.methods@.len(),
                methods@.len() == i,
                forall|k: int| 0 <= k < i ==> (#[trigger] methods@[k])@ == trait_view_of(*node).methods[k],
            decreases node.methods@.len() - i,
        {
            let m = &node.methods[i];
            let dynamic = names_contain(&m.attributes, "dynamic");
            methods.push(TraitMethodSig { name: m.name.clone(), param_count: m.parameters.len(), dynamic });
            i = i + 1;
        }
        let info = TraitDefInfo {
            name: node.name.clone(),
            methods,
            generic_params: clone_strings(&node.generic_params),
        };
        assert(info@.methods =~= trait_view_of(*node).methods);
        assert(info@ == trait_view_of(*node));
        self.trait_defs.insert(node.name.clone(), info);
        assert(self@.traits =~= old(self)@.traits.insert(node.name@, trait_view_of(*node)));
    }

    fn has_impl_method(&self, struct_name: &str, method: &str, arity: usize) -> (r: bool)
        ensures
            r == self@.impl_methods.contains((struct_name@, method@, arity as nat)),
    {
        let mut i: usize = 0;
        while i < self.impl_methods.len()
            invariant
                i <= self.impl_methods@.len(),
                forall|k: int| 0 <= k < i ==> self@.impl_methods[k] != (struct_name@, method@, arity as nat),
            decreases self.impl_methods@.len() - i,
        {
            let e = &self.impl_methods[i];
            if str_eq(e.0.as_str(), struct_name) && str_eq(e.1.as_str(), method) && e.2 == arity {
                assert(self@.impl_methods[i as int] == (struct_name@, method@, arity as nat));
                return true;
            }
            i = i + 1;
        }
        false
    }

    /// Declares the signatures of an `impl` block's methods (see
    /// `impl_signatures`), with the block's type (up to any `<`) as the
    /// type being implemented and the block's generic parameters in scope;
    /// both are restored afterwards.
    fn declare_impl_signatures(&mut self, node: &ImplBlock)
        ensures
            ({
                let owner = decode_utf8(bytes_before(encode_utf8(node.struct_name@), 60));
                let inner = AnalyzerView { impl_struct: Some(owner), generics: texts(node.generic_params@), ..old(self)@ };
                let (w, keys) = impl_signatures(inner, *node, node.items@, owner);
                &&& final(self)@ == (AnalyzerView {
                    scopes: final(self)@.scopes,
                    impl_struct: old(self)@.impl_struct,
                    generics: old(self)@.generics,
                    ..w
                })
                &&& scopes_kept(old(self)@.scopes, final(self)@.scopes)
                &&& declared_as(old(self)@.scopes, final(self)@.scopes, keys)
            }),
    {
        let prev_impl = match &self.current_impl_struct {
            Some(s) => Some(s.clone()),
            None => None,
        };
        let prev_generics = clone_strings(&self.current_generic_params);
        let owner = owned(text_before(node.struct_name.as_str(), 60));
        self.current_impl_struct = Some(owner.clone());
        self.set_generics(clone_strings(&node.generic_params));
        let ghost inner = self@;
        let ghost ownerv = owner@;
        assert(inner == AnalyzerView { impl_struct: Some(ownerv), generics: texts(node.generic_params@), ..old(self)@ });
        proof {
            lemma_scopes_kept_refl(old(self)@.scopes);
            lemma_declared_as_none(old(self)@.scopes);
        }
        let mut i: usize = 0;
        assert(node.items@.take(0) =~= Seq::<ImplItem>::empty());
        while i < node.items.len()
            invariant
                i <= node.items@.len(),
                self@.impl_struct == Some(ownerv),
                self@.generics == inner.generics,
                self@.module == inner.module,
                owner@ == ownerv,
                ({
                    let (w, keys) = impl_signatures(inner, *node, node.items@.take(i as int), ownerv);
                    &&& self@ == (AnalyzerView { scopes: self@.scopes, ..w })
                    &&& scopes_kept(old(self)@.scopes, self@.scopes)
                    &&& declared_as(old(self)@.scopes, self@.scopes, keys)
                }),
            decreases node.items@.len() - i,
        {
            let ghost before = impl_signatures(inner, *node, node.items@.take(i as int), ownerv);
            assert(node.items@.take(i + 1).drop_last() =~= node.items@.take(i as int));
            assert(node.items@.take(i + 1).last() == node.items@[i as int]);
            let f = match &node.items[i] {
                ImplItem::Method(f) => f,
                ImplItem::Convert(f) => f,
            };
            let arity: usize = match &f.parameters {
                Some(p) => p.len(),
                None => 0,
            };
            let skip = (self.build_mode == BuildMode::Release && names_contain(&f.attributes, "debug"))
                || self.has_impl_method(node.struct_name.as_str(), f.name.as_str(), arity);
            if !skip {
                self.impl_methods.push((node.struct_name.clone(), f.name.clone(), arity));
                assert(self@.impl_methods =~= before.0.impl_methods.push(method_key(*node, *f)));
                let g = self.combined_generics(&f.generic_params);
                let ghost s0 = self@.scopes;
                let ghost pre = self@;
                self.declare_signature(f, g, Some(owner.as_str()));
                proof {
                    lemma_signature_read_scopes(
                        pre,
                        AnalyzerView { impl_methods: before.0.impl_methods.push(method_key(*node, *f)), ..before.0 },
                        *f,
                        texts(g@),
                    );
                    lemma_scopes_kept_trans(old(self)@.scopes, s0, self@.scopes);
                    let ret = opt_ast_type(f.return_type, texts(g@), pre.struct_fields.dom()).0;
                    lemma_declared_as_trans(old(self)@.scopes, s0, self@.scopes, before.1, sig_decls(pre.module, Some(ownerv), f.name@, ret));
                }
            }
            i = i + 1;
        }
        assert(node.items@.take(i as int) =~= node.items@);
        self.current_impl_struct = prev_impl;
        self.set_generics(prev_generics);
    }

    /// Declares the functions of an `extern` block in the current module,
    /// their return types read with the generic parameters in scope.
    fn declare_extern_signatures(&mut self, node: &ExternBlock)
        ensures
            ({
                let (w, keys) = extern_signatures(old(self)@, node.functions@);
                &&& final(self)@ == (AnalyzerView { scopes: final(self)@.scopes, ..w })
                &&& scopes_kept(old(self)@.scopes, final(self)@.scopes)
                &&& declared_as(old(self)@.scopes, final(self)@.scopes, keys)
            }),
    {
        proof {
            lemma_scopes_kept_refl(old(self)@.scopes);
            lemma_declared_as_none(old(self)@.scopes);
        }
        let mut i: usize = 0;
        assert(node.functions@.take(0) =~= Seq::<Function>::empty());
        while i < node.functions.len()
            invariant
                i <= node.functions@.len(),
                ({
                    let (w, keys) = extern_signatures(old(self)@, node.functions@.take(i as int));
                    &&& self@ == (AnalyzerView { scopes: self@.scopes, ..w })
                    &&& scopes_kept(old(self)@.scopes, self@.scopes)
                    &&& declared_as(old(self)@.scopes, self@.scopes, keys)
                }),
            decreases node.functions@.len() - i,
        {
            let ghost before = extern_signatures(old(self)@, node.functions@.take(i as int));
            assert(node.functions@.take(i + 1).drop_last() =~= node.functions@.take(i as int));
            assert(node.functions@.take(i + 1).last() == node.functions@[i as int]);
            let g = clone_strings(&self.current_generic_params);
            let ghost s0 = self@.scopes;
            let ghost pre = self@;
            self.declare_signature(&node.functions[i], g, None);
            proof {
                lemma_signature_read_scopes(pre, before.0, node.functions@[i as int], texts(g@));
                lemma_scopes_kept_trans(old(self)@.scopes, s0, self@.scopes);
                let f = node.functions@[i as int];
                let ret = opt_ast_type(f.return_type, texts(g@), pre.struct_fields.dom()).0;
                lemma_declared_as_trans(old(self)@.scopes, s0, self@.scopes, before.1, sig_decls(pre.module, None, f.name@, ret));
            }
            i = i + 1;
        }
        assert(node.functions@.take(i as int) =~= node.functions@);
    }

    /// Pre-declares the signatures of a program's top-level definitions
    /// (functions, structs, enums, traits, `impl` methods, `extern`
    /// functions; see `signature_step`) so that definitions can refer to
    /// ones further down the file.
    pub fn declare_program_signatures(&mut self, program: &Program)
        ensures
            ({
                let (w, keys) = signatures(old(self)@, program.statements@);
                &&& final(self)@ == (AnalyzerView { scopes: final(self)@.scopes, ..w })
                &&& scopes_kept(old(self)@.scopes, final(self)@.scopes)
                &&& declared_as(old(self)@.scopes, final(self)@.scopes, keys)
            }),
    {
        proof {
            lemma_scopes_kept_refl(old(self)@.scopes);
            lemma_declared_as_none(old(self)@.scopes);
        }
        let mut i: usize = 0;
        assert(program.statements@.take(0) =~= Seq::<Statement>::empty());
        while i < program.statements.len()
            invariant
                i <= program.statements@.len(),
                ({
                    let (w, keys) = signatures(old(self)@, program.statements@.take(i as int));
                    &&& self@ == (AnalyzerView { scopes: self@.scopes, ..w })
                    &&& scopes_kept(old(self)@.scopes, self@.scopes)
                    &&& declared_as(old(self)@.scopes, self@.scopes, keys)
                }),
            decreases program.statements@.len() - i,
        {
            let ghost before = signatures(old(self)@, program.statements@.take(i as int));
            let ghost pre = self@;
            let ghost st = program.statements@[i as int];
            assert(program.statements@.take(i + 1).drop_last() =~= program.statements@.take(i as int));
            assert(program.statements@.take(i + 1).last() == st);
            proof {
                lemma_signature_step_scopes(pre, before.0, st);
            }
            match &program.statements[i] {
                Statement::Function(f) => {
                    let skip = self.build_mode == BuildMode::Release && names_contain(&f.attributes, "debug");
                    if !skip {
                        let g = self.combined_generics(&f.generic_params);
                        self.declare_signature(&**f, g, None);
                    } else {
                        proof {
                            lemma_declared_as_none(pre.scopes);
                        }
                    }
                    assert(declared_as(pre.scopes, self@.scopes, signature_step(before.0, st).1));
                },
                Statement::StructDefinition(sd) => {
                    self.visit_struct_definition(sd);
                    assert(declared_as(pre.scopes, self@.scopes, signature_step(before.0, st).1));
                },
                Statement::EnumDefinition(ed) => {
                    self.visit_enum_definition(ed);
                    assert(declared_as(pre.scopes, self@.scopes, signature_step(before.0, st).1));
                },
                Statement::TraitDefinition(td) => {
                    self.visit_trait_definition(td);
                    proof {
                        lemma_declared_as_none(pre.scopes);
                    }
                    assert(declared_as(pre.scopes, self@.scopes, signature_step(before.0, st).1));
                },
                Statement::ImplBlock(ib) => {
                    self.declare_impl_signatures(ib);
                    assert(declared_as(pre.scopes, self@.scopes, signature_step(before.0, st).1));
                },
                Statement::ExternBlock(eb) => {
                    self.declare_extern_signatures(eb);
                    assert(declared_as(pre.scopes, self@.scopes, signature_step(before.0, st).1));
                },
                _ => {
                    proof {
                        lemma_declared_as_none(pre.scopes);
                    }
                    assert(declared_as(pre.scopes, self@.scopes, signature_step(before.0, st).1));
                },
            }
            proof {
                let (x, more) = signature_step(before.0, st);
                lemma_scopes_kept_trans(old(self)@.scopes, pre.scopes, self@.scopes);
                lemma_declared_as_trans(old(self)@.scopes, pre.scopes, self@.scopes, before.1, more);
            }
            i = i + 1;
        }
        assert(program.statements@.take(i as int) =~= program.statements@);
    }

    fn impl_field(&self, name: &str) -> (r: bool)
        ensures
            r == is_impl_field(self@, name@),
    {
        match &self.current_impl_struct {
            Some(st) => match self.struct_fields.get(st.as_str()) {
                Some(f) => {
                    assert(field_tables(self.struct_fields@)[st@] == f@.map_values(|d: DataType| d@));
                    f.contains_key(name)
                },
                None => false,
            },
            None => false,
        }
    }

    /// Reports an error and pushes nothing; the message is built by the
    /// caller.
    fn report(&mut self, msg: String)
        ensures
            final(self)@ == with_errors(old(self)@, seq![msg@]),
    {
        self.error(msg.as_str());
        proof {
            lemma_with_error_one(old(self)@, msg@);
        }
    }

    /// Whether the left side of `=` may be assigned (see `assign_target`),
    /// reporting what is wrong with it.
    fn check_assign_target(&mut self, left: Option<&Expression>) -> (ok: bool)
        ensures
            ok == assign_target(old(self)@, deref_opt(left)).0,
            final(self)@ == with_errors(old(self)@, assign_target(old(self)@, deref_opt(left)).1),
    {
        proof {
            lemma_with_errors_none(old(self)@);
        }
        match left {
            Some(Expression::Identifier(name)) => {
                if self.impl_field(name.as_str()) {
                    return true;
                }
                let found = match self.env.lookup_symbol(name.as_str()) {
                    Some(sym) => Some(sym.is_mut),
                    None => None,
                };
                match found {
                    Some(true) => true,
                    Some(false) => {
                        let mut msg = owned("Cannot assign to constant variable '");
                        msg.append(name.as_str());
                        msg.append("'");
                        self.report(msg);
                        false
                    },
                    None => false,
                }
            },
            Some(Expression::MemberAccess { object: Some(obj), member }) => match &**obj {
                Expression::Identifier(o) => str_eq(o.as_str(), "self") && self.impl_field(member.as_str()),
                _ => false,
            },
            Some(Expression::ArrayIndex { array, index }) => {
                let base = index_base_of(left.unwrap());
                match base {
                    Expression::Identifier(name) => {
                        if self.impl_field(name.as_str()) {
                            return true;
                        }
                        let found = match self.env.lookup_symbol(name.as_str()) {
                            Some(sym) => Some((sym.is_mut, sym.is_array)),
                            None => None,
                        };
                        match found {
                            Some((is_mut, is_array)) => {
                                if !is_mut {
                                    let mut msg = owned("Cannot assign to constant array '");
                                    msg.append(name.as_str());
                                    msg.append("'");
                                    self.report(msg);
                                    false
                                } else if !is_array {
                                    let mut msg = owned("Cannot index non-array variable '");
                                    msg.append(name.as_str());
                                    msg.append("'");
                                    self.report(msg);
                                    false
                                } else {
                                    true
                                }
                            },
                            None => false,
                        }
                    },
                    _ => false,
                }
            },
            _ => false,
        }
    }

    fn push_type(&mut self, t: DataType)
        ensures
            final(self)@ == (AnalyzerView { types: old(self)@.types.push(t@), ..old(self)@ }),
    {
        self.type_stack.push(t);
        assert(self@.types =~= old(self)@.types.push(t@));
    }

    /// The type of an assignment `left = right` (see `binary_outcome`).
    fn assignment_type(&mut self, left: Option<&Expression>, right: Option<&Expression>, lt: &DataType, rt: &DataType) -> (t: DataType)
        ensures
            binary_typed(old(self)@, final(self)@, t@, "="@, deref_opt(left), deref_opt(right), lt@, rt@),
    {
        let ghost errs = assign_target(old(self)@, deref_opt(left)).1;
        let ok = self.check_assign_target(left);
        proof {
            lemma_with_errors_frame(old(self)@, errs);
        }
        if !ok {
            let msg = owned("Left side of assignment must be a mutable variable or array element");
            self.report(msg);
            proof {
                lemma_with_errors_then(old(self)@, errs, msg@);
            }
            return DataType::Unknown;
        }
        let new_array = match right {
            Some(Expression::Identifier(n)) => str_eq(n.as_str(), "__new_array"),
            _ => false,
        };
        if new_array {
            return lt.clone();
        }
        let null_generic = match right {
            Some(Expression::NullLiteral) => match rt {
                DataType::None_ => match lt {
                    DataType::Struct(g) => self.is_generic_param(g.as_str()),
                    _ => false,
                },
                _ => false,
            },
            _ => false,
        };
        if null_generic {
            return lt.clone();
        }
        if !Environment::is_type_compatible(lt, rt) {
            let mut msg = owned("Cannot assign ");
            let a = data_type_to_string(rt.clone());
            msg.append(a.as_str());
            msg.append(" to ");
            let b = data_type_to_string(lt.clone());
            msg.append(b.as_str());
            self.report(msg);
            proof {
                lemma_with_errors_then(old(self)@, errs, msg@);
            }
            return DataType::Unknown;
        }
        lt.clone()
    }

    /// The type of an operator applied to a value of struct type `sn`: the
    /// return type of the struct's method for it.
    fn struct_operator_type(&mut self, sn: &str, op: &str) -> (t: DataType)
        requires
            operator_method(op@) is Some,
        ensures
            t@ == struct_operator(old(self)@, sn@, op@).0,
            final(self)@ == with_errors(old(self)@, struct_operator(old(self)@, sn@, op@).1),
    {
        let m = match Self::operator_to_method(op) {
            Some(m) => m,
            None => "",
        };
        let mut full = owned(sn);
        full.append("::");
        full.append(m);
        let found = match self.env.lookup_symbol(full.as_str()) {
            Some(sym) => Some(sym.data_type.clone()),
            None => None,
        };
        match found {
            Some(dt) => {
                proof {
                    lemma_with_errors_none(old(self)@);
                }
                dt
            },
            None => {
                let mut msg = owned("Type '");
                msg.append(sn);
                msg.append("' does not implement operator '");
                msg.append(op);
                msg.append("' (method '");
                msg.append(sn);
                msg.append("::");
                msg.append(m);
                msg.append("' not found)");
                self.report(msg);
                DataType::Unknown
            },
        }
    }

    /// The type of `+`, `-`, `*`, `/` or `%` (see `binary_outcome`).
    fn arithmetic_type(&mut self, op: &str, left: Option<&Expression>, right: Option<&Expression>, lt: &DataType, rt: &DataType) -> (t: DataType)
        requires
            op@ == "+"@ || op@ == "-"@ || op@ == "*"@ || op@ == "/"@ || op@ == "%"@,
        ensures
            binary_typed(old(self)@, final(self)@, t@, op@, deref_opt(left), deref_opt(right), lt@, rt@),
    {
        proof {
            lemma_operator_texts();
            lemma_with_errors_none(old(self)@);
        }
        let lt_str = match lt {
            DataType::Str => true,
            _ => false,
        };
        let rt_str = match rt {
            DataType::Str => true,
            _ => false,
        };
        if str_eq(op, "+") && (lt_str || rt_str) {
            return DataType::Str;
        }
        if Environment::is_numeric_type(lt) && Environment::is_numeric_type(rt) {
            let lt_float = match lt {
                DataType::Float => true,
                _ => false,
            };
            let rt_float = match rt {
                DataType::Float => true,
                _ => false,
            };
            if lt_float || rt_float {
                return DataType::Float;
            }
            return DataType::Int;
        }
        match lt {
            DataType::Struct(sn) => {
                return self.struct_operator_type(sn.as_str(), op);
            },
            _ => {},
        }
        let mut msg = owned("Operator '");
        msg.append(op);
        msg.append("' requires numeric operands");
        self.report(msg);
        DataType::Unknown
    }

    /// The type of `+=`, `-=`, `*=` or `/=` (see `binary_outcome`).
    fn compound_assignment_type(&mut self, op: &str, left: Option<&Expression>, right: Option<&Expression>, lt: &DataType, rt: &DataType) -> (t: DataType)
        requires
            op@ == "+="@ || op@ == "-="@ || op@ == "*="@ || op@ == "/="@,
        ensures
            binary_typed(old(self)@, final(self)@, t@, op@, deref_opt(left), deref_opt(right), lt@, rt@),
    {
        proof {
            lemma_operator_texts();
            lemma_with_errors_none(old(self)@);
        }
        let name = match left {
            Some(Expression::Identifier(name)) => name,
            Some(_) => {
                self.report(owned("Left side of compound assignment must be a variable"));
                return DataType::Unknown;
            },
            None => {
                self.report(owned("Left side of compound assignment must be a mutable variable"));
                return DataType::Unknown;
            },
        };
        let ghost errs: Seq<Seq<char>> = if is_impl_field(old(self)@, name@) {
            Seq::empty()
        } else {
            match lookup_in(old(self)@.scopes, name@) {
                Some(sym) => if sym.is_mut {
                    Seq::empty()
                } else {
                    seq!["Cannot assign to constant variable '"@ + name@ + "'"@]
                },
                None => seq!["Undeclared variable '"@ + name@ + "'"@],
            }
        };
        let ok = if self.impl_field(name.as_str()) {
            true
        } else {
            let found = match self.env.lookup_symbol(name.as_str()) {
                Some(sym) => Some(sym.is_mut),
                None => None,
            };
            match found {
                Some(true) => true,
                Some(false) => {
                    let mut msg = owned("Cannot assign to constant variable '");
                    msg.append(name.as_str());
                    msg.append("'");
                    self.report(msg);
                    false
                },
                None => {
                    let mut msg = owned("Undeclared variable '");
                    msg.append(name.as_str());
                    msg.append("'");
                    self.report(msg);
                    false
                },
            }
        };
        assert(self@ == with_errors(old(self)@, errs));
        if !ok {
            if name.as_str().is_empty() {
                let msg = owned("Left side of compound assignment must be a mutable variable");
                self.report(msg);
                proof {
                    lemma_with_errors_then(old(self)@, errs, msg@);
                }
            }
            return DataType::Unknown;
        }
        let lt_str = match lt {
            DataType::Str => true,
            _ => false,
        };
        let rt_str = match rt {
            DataType::Str => true,
            _ => false,
        };
        if str_eq(op, "+=") && (lt_str || rt_str) {
            return DataType::Str;
        }
        if !Environment::is_numeric_type(lt) || !Environment::is_numeric_type(rt) {
            let mut msg = owned("Operator '");
            msg.append(op);
            msg.append("' requires numeric operands");
            self.report(msg);
            proof {
                lemma_with_errors_then(old(self)@, errs, msg@);
            }
            return DataType::Unknown;
        }
        lt.clone()
    }

    /// The type of a comparison (see `binary_outcome`).
    fn comparison_type(&mut self, op: &str, left: Option<&Expression>, right: Option<&Expression>, lt: &DataType, rt: &DataType) -> (t: DataType)
        requires
            op@ == "=="@ || op@ == "!="@ || op@ == "<"@ || op@ == ">"@ || op@ == "<="@ || op@ == ">="@,
        ensures
            binary_typed(old(self)@, final(self)@, t@, op@, deref_opt(left), deref_opt(right), lt@, rt@),
    {
        proof {
            lemma_operator_texts();
            lemma_with_errors_none(old(self)@);
        }
        let nullable = match lt {
            DataType::Nullable(_) | DataType::None_ => true,
            _ => false,
        } || match rt {
            DataType::Nullable(_) | DataType::None_ => true,
            _ => false,
        };
        if nullable {
            if str_eq(op, "==") || str_eq(op, "!=") {
                return DataType::Bool;
            }
            let mut msg = owned("Cannot compare ");
            let a = data_type_to_string(lt.clone());
            msg.append(a.as_str());
            msg.append(" and ");
            let b = data_type_to_string(rt.clone());
            msg.append(b.as_str());
            msg.append(" with '");
            msg.append(op);
            msg.append("'");
            self.report(msg);
            return DataType::Unknown;
        }
        let lt_bool = match lt {
            DataType::Bool => true,
            _ => false,
        };
        if Environment::is_numeric_type(lt) || lt_bool {
            if !Environment::is_type_compatible(lt, rt) && !Environment::is_type_compatible(rt, lt) {
                let mut msg = owned("Cannot compare ");
                let a = data_type_to_string(lt.clone());
                msg.append(a.as_str());
                msg.append(" and ");
                let b = data_type_to_string(rt.clone());
                msg.append(b.as_str());
                self.report(msg);
            }
            return DataType::Bool;
        }
        match lt {
            DataType::Struct(sn) => {
                return self.struct_operator_type(sn.as_str(), op);
            },
            _ => {},
        }
        let mut msg = owned("Cannot compare ");
        let a = data_type_to_string(lt.clone());
        msg.append(a.as_str());
        msg.append(" and ");
        let b = data_type_to_string(rt.clone());
        msg.append(b.as_str());
        self.report(msg);
        DataType::Bool
    }

    /// Types a binary expression whose operands have been visited, their
    /// types being `left_type` and `right_type` (see `binary_outcome`):
    /// assignments check their target and types, arithmetic and comparisons
    /// of structs go through the structs' operator methods, and `a..b` is a
    /// `Range`. The type is pushed; errors are reported.
    pub fn visit_binary_expression(
        &mut self,
        op: &str,
        left: Option<&Expression>,
        right: Option<&Expression>,
        left_type: DataType,
        right_type: DataType,
    )
        ensures
            final(self)@ == (AnalyzerView {
                scopes: final(self)@.scopes,
                ..binary_visited(old(self)@, op@, deref_opt(left), deref_opt(right), left_type@, right_type@)
            }),
            scopes_kept(old(self)@.scopes, final(self)@.scopes),
            op@ == ".."@ && !old(self)@.struct_fields.contains_key("Range"@) ==> final(self)@.scopes.len() > 0
                && final(self)@.scopes[0].contains_key("Range"@),
            declared_as(
                old(self)@.scopes,
                final(self)@.scopes,
                if op@ == ".."@ && !old(self)@.struct_fields.contains_key("Range"@) {
                    map!["Range"@ => Decl::Module]
                } else {
                    Map::empty()
                },
            ),
    {
        proof {
            lemma_operator_texts();
            lemma_with_errors_none(old(self)@);
            lemma_scopes_kept_refl(old(self)@.scopes);
            lemma_declared_as_none(old(self)@.scopes);
        }
        let lt = &left_type;
        let rt = &right_type;
        let t = if str_eq(op, "=") {
            self.assignment_type(left, right, lt, rt)
        } else if str_eq(op, "+") || str_eq(op, "-") || str_eq(op, "*") || str_eq(op, "/") || str_eq(op, "%") {
            self.arithmetic_type(op, left, right, lt, rt)
        } else if str_eq(op, "+=") || str_eq(op, "-=") || str_eq(op, "*=") || str_eq(op, "/=") {
            self.compound_assignment_type(op, left, right, lt, rt)
        } else if str_eq(op, "==") || str_eq(op, "!=") || str_eq(op, "<") || str_eq(op, ">") || str_eq(op, "<=") || str_eq(
            op,
            ">=",
        ) {
            self.comparison_type(op, left, right, lt, rt)
        } else if str_eq(op, "&&") || str_eq(op, "||") {
            let both_bool = match (lt, rt) {
                (DataType::Bool, DataType::Bool) => true,
                _ => false,
            };
            if !both_bool {
                self.report(owned("Logical operators require boolean operands"));
            }
            DataType::Bool
        } else if str_eq(op, "..") {
            proof {
                reveal_strlit("Range");
            }
            if !self.struct_fields.contains_key("Range") {
                let empty: Table<DataType> = Table::new();
                assert(empty@.map_values(|d: DataType| d@) =~= Map::<Seq<char>, TypeView>::empty());
                self.struct_fields.insert(owned("Range"), empty);
                assert(self@.struct_fields =~= old(self)@.struct_fields.insert("Range"@, Map::empty()));
                self.declare_module_name("Range");
            }
            DataType::Struct(owned("Range"))
        } else {
            let mut msg = owned("Unknown operator: ");
            msg.append(op);
            self.report(msg);
            DataType::Unknown
        };
        let ghost outcome = binary_outcome(old(self)@, op@, deref_opt(left), deref_opt(right), left_type@, right_type@);
        proof {
            lemma_with_errors_frame(old(self)@, outcome.1);
        }
        self.push_type(t);
    }
    /// The type of the symbol `name` resolves to.
    fn symbol_type_named(&self, name: &str) -> (r: Option<DataType>)
        ensures
            match r {
                Some(t) => symbol_type_of(self@, name@) == Some(t@),
                None => symbol_type_of(self@, name@) is None,
            },
    {
        match self.env.lookup_symbol(name) {
            Some(s) => Some(s.data_type.clone()),
            None => None,
        }
    }

    /// What the callee of a call names (see `call_target`), its errors
    /// reported.
    fn call_target_of(&mut self, callee: Option<&Expression>, object_type: &DataType) -> (r: (String, String))
        ensures
            r.0@ == call_target(old(self)@, deref_opt(callee), object_type@).0,
            r.1@ == call_target(old(self)@, deref_opt(callee), object_type@).1,
            final(self)@ == with_errors(old(self)@, call_target(old(self)@, deref_opt(callee), object_type@).2),
    {
        proof {
            lemma_with_errors_none(old(self)@);
        }
        match callee {
            Some(Expression::Identifier(n)) => (n.clone(), self.current_module.clone()),
            Some(Expression::PathAccess { path, member }) => {
                let m = join_strings(path, "::");
                assert(texts(path@) =~= path@.map_values(|s: String| s@));
                (member.clone(), m)
            },
            Some(Expression::MemberAccess { object: Some(obj), member }) => match &**obj {
                Expression::Identifier(o) => {
                    let is_module = match self.env.lookup_symbol(o.as_str()) {
                        Some(s) => match s.symbol_type {
                            SymbolType::Module => true,
                            _ => false,
                        },
                        None => false,
                    };
                    let is_self = str_eq(o.as_str(), "self");
                    if is_module && !is_self {
                        let mut msg = owned("Use '::' for module access: '");
                        msg.append(o.as_str());
                        msg.append("::");
                        msg.append(member.as_str());
                        msg.append("' instead of '");
                        msg.append(o.as_str());
                        msg.append(".");
                        msg.append(member.as_str());
                        msg.append("'");
                        let module = self.current_module.clone();
                        self.report(msg);
                        (member.clone(), module)
                    } else if is_self {
                        let module = match &self.current_impl_struct {
                            Some(sn) => sn.clone(),
                            None => o.clone(),
                        };
                        (member.clone(), module)
                    } else {
                        (member.clone(), o.clone())
                    }
                },
                _ => {
                    let module = match object_type {
                        DataType::Struct(sn) => sn.clone(),
                        _ => self.current_module.clone(),
                    };
                    (member.clone(), module)
                },
            },
            _ => (String::new(), self.current_module.clone()),
        }
    }

    /// The built-in array or string method a call on a variable names (see
    /// `builtin_method_type`).
    fn builtin_method_of(&self, func: &String, module: &String) -> (r: Option<DataType>)
        ensures
            match r {
                Some(t) => builtin_method_type(self@, func@, module@) == Some(t@),
                None => builtin_method_type(self@, func@, module@) is None,
            },
    {
        if str_eq(module.as_str(), self.current_module.as_str()) {
            return None;
        }
        match self.env.lookup_symbol(module.as_str()) {
            Some(var) => {
                let f = func.as_str();
                if var.is_array && str_eq(f, "len") {
                    return Some(DataType::Int);
                }
                if var.is_array && str_eq(f, "add") {
                    return Some(DataType::None_);
                }
                let is_str = match var.data_type {
                    DataType::Str => true,
                    _ => false,
                };
                if is_str {
                    if str_eq(f, "len") {
                        return Some(DataType::Int);
                    }
                    if str_eq(f, "contains") {
                        return Some(DataType::Bool);
                    }
                    if str_eq(f, "trim") || str_eq(f, "replace") {
                        return Some(DataType::Str);
                    }
                }
                None
            },
            None => None,
        }
    }

    /// The method of the struct held by the variable (or `self`) a call is
    /// made on (see `struct_method_type`).
    fn struct_method_of(&self, func: &String, module: &String) -> (r: Option<DataType>)
        ensures
            match r {
                Some(t) => struct_method_type(self@, func@, module@) == Some(t@),
                None => struct_method_type(self@, func@, module@) is None,
            },
    {
        let dispatch: Option<String> = if str_eq(module.as_str(), "self") {
            match &self.current_impl_struct {
                Some(sn) => Some(sn.clone()),
                None => None,
            }
        } else {
            match self.env.lookup_symbol(module.as_str()) {
                Some(s) => match &s.data_type {
                    DataType::Struct(sn) => Some(sn.clone()),
                    _ => None,
                },
                None => None,
            }
        };
        let sn = match dispatch {
            Some(sn) => sn,
            None => {
                return None;
            },
        };
        let mut qualified = sn.clone();
        qualified.append("::");
        qualified.append(func.as_str());
        match self.symbol_type_named(qualified.as_str()) {
            Some(t) => {
                return Some(t);
            },
            None => {},
        }
        match self.symbol_type_named(func.as_str()) {
            Some(t) => {
                return Some(t);
            },
            None => {},
        }
        let mut in_module = self.current_module.clone();
        in_module.append("::");
        in_module.append(func.as_str());
        match self.symbol_type_named(in_module.as_str()) {
            Some(t) => {
                return Some(t);
            },
            None => {},
        }
        let mut bare = owned(text_before(sn.as_str(), 60));
        bare.append("::");
        bare.append(func.as_str());
        self.symbol_type_named(bare.as_str())
    }

    /// The type of a call of `func` in `module` (see `call_type`), its errors
    /// reported; `range::new` makes `Range` known.
    fn call_type_of(&mut self, func: &String, module: &String) -> (t: DataType)
        ensures
            t@ == call_type(old(self)@, func@, module@).0,
            final(self)@ == (AnalyzerView {
                scopes: final(self)@.scopes,
                struct_fields: if is_range_new(old(self)@, func@, module@) && !old(self)@.struct_fields.contains_key(
                    "Range"@,
                ) {
                    old(self)@.struct_fields.insert("Range"@, Map::empty())
                } else {
                    old(self)@.struct_fields
                },
                ..with_errors(old(self)@, call_type(old(self)@, func@, module@).1)
            }),
            scopes_kept(old(self)@.scopes, final(self)@.scopes),
            is_range_new(old(self)@, func@, module@) && !old(self)@.struct_fields.contains_key("Range"@)
                ==> final(self)@.scopes.len() > 0 && final(self)@.scopes[0].contains_key("range"@),
            !(is_range_new(old(self)@, func@, module@) && !old(self)@.struct_fields.contains_key("Range"@))
                ==> final(self)@.scopes == old(self)@.scopes,
            is_range_new(old(self)@, func@, module@) && !old(self)@.struct_fields.contains_key("Range"@) ==> declared_as(
                old(self)@.scopes,
                final(self)@.scopes,
                map!["range"@ => Decl::Module],
            ),
    {
        proof {
            lemma_with_errors_none(old(self)@);
            lemma_scopes_kept_refl(old(self)@.scopes);
        }
        let func_bare = text_before(func.as_str(), 60);
        if self.struct_fields.contains_key(func_bare) {
            return DataType::Struct(owned(func_bare));
        }
        let ctor = last_segment(func_bare);
        if self.struct_fields.contains_key(ctor) {
            return DataType::Struct(owned(ctor));
        }
        let module_bare = text_before(module.as_str(), 60);
        let is_new = str_eq(func.as_str(), "new");
        if is_new && (self.struct_fields.contains_key(module_bare) || self.is_generic_param(module_bare)) {
            return DataType::Struct(owned(module_bare));
        }
        if is_new && (str_eq(module.as_str(), "range") || str_eq(module.as_str(), "Range")) {
            proof {
                reveal_strlit("Range");
            }
            if !self.struct_fields.contains_key("Range") {
                let empty: Table<DataType> = Table::new();
                assert(empty@.map_values(|d: DataType| d@) =~= Map::<Seq<char>, TypeView>::empty());
                self.struct_fields.insert(owned("Range"), empty);
                assert(self@.struct_fields =~= old(self)@.struct_fields.insert("Range"@, Map::empty()));
                self.declare_module_name("range");
            }
            return DataType::Struct(owned("Range"));
        }
        if (str_eq(func.as_str(), "file") || str_eq(func.as_str(), "line")) && str_eq(
            module.as_str(),
            self.current_module.as_str(),
        ) {
            if str_eq(func.as_str(), "file") {
                return DataType::Str;
            }
            return DataType::Int;
        }
        let resolved: String = match self.module_aliases.get(module.as_str()) {
            Some(a) => a.clone(),
            None => module.clone(),
        };
        let rb = text_before(resolved.as_str(), 60);
        let on_variable = !str_eq(rb, self.current_module.as_str()) && match self.env.lookup_symbol(rb) {
            Some(s) => match s.symbol_type {
                SymbolType::Module => false,
                _ => true,
            },
            None => false,
        };
        let mut full = if on_variable {
            self.current_module.clone()
        } else {
            owned(rb)
        };
        full.append("::");
        full.append(func.as_str());
        assert(full@ == call_lookup_name(old(self)@, func@, module@));
        match self.symbol_type_named(full.as_str()) {
            Some(t) => {
                return t;
            },
            None => {},
        }
        match self.symbol_type_named(func.as_str()) {
            Some(t) => {
                return t;
            },
            None => {},
        }
        match self.builtin_method_of(func, module) {
            Some(t) => {
                return t;
            },
            None => {},
        }
        match self.struct_method_of(func, module) {
            Some(t) => {
                return t;
            },
            None => {},
        }
        let mut msg = owned("Undeclared function: '");
        msg.append(full.as_str());
        msg.append("'");
        proof {
            lemma_with_errors_frame(old(self)@, seq![msg@]);
        }
        self.report(msg);
        DataType::Unknown
    }

    /// Types a call whose arguments have been visited, their types popped
    /// (see `call_visited`). `callee_type` is the type of the callee when it
    /// is a lambda called in place, or of the object of a method call made
    /// on something other than a plain name; it is not read otherwise. The
    /// call's type is pushed; errors are reported; `range::new` declares the
    /// module `range` when `Range` was not known.
    pub fn visit_function_call(&mut self, callee: Option<&Expression>, callee_type: DataType)
        ensures
            final(self)@ == (AnalyzerView {
                scopes: final(self)@.scopes,
                ..call_visited(old(self)@, deref_opt(callee), callee_type@)
            }),
            scopes_kept(old(self)@.scopes, final(self)@.scopes),
            call_declares_range(old(self)@, deref_opt(callee), callee_type@) ==> final(self)@.scopes.len() > 0
                && final(self)@.scopes[0].contains_key("range"@),
            !call_declares_range(old(self)@, deref_opt(callee), callee_type@) ==> final(self)@.scopes == old(
                self,
            )@.scopes,
            call_declares_range(old(self)@, deref_opt(callee), callee_type@) ==> declared_as(
                old(self)@.scopes,
                final(self)@.scopes,
                map!["range"@ => Decl::Module],
            ),
    {
        match callee {
            Some(Expression::Lambda { .. }) => {
                proof {
                    lemma_scopes_kept_refl(old(self)@.scopes);
                }
                self.push_type(callee_type);
                return;
            },
            _ => {},
        }
        let (func, module) = self.call_target_of(callee, &callee_type);
        proof {
            lemma_with_errors_frame(old(self)@, call_target(old(self)@, deref_opt(callee), callee_type@).2);
        }
        let ghost w = self@;
        let t = self.call_type_of(&func, &module);
        proof {
            lemma_with_errors_frame(w, call_type(w, func@, module@).1);
        }
        self.push_type(t);
    }

    /// The position of `name` among `names`.
    fn position_of(names: &Vec<String>, name: &str) -> (r: Option<usize>)
        ensures
            match r {
                Some(i) => i < names@.len() && names@[i as int]@ == name@,
                None => !texts(names@).contains(name@),
            },
    {
        let mut i: usize = 0;
        while i < names.len()
            invariant
                i <= names@.len(),
                forall|k: int| 0 <= k < i ==> names@[k]@ != name@,
            decreases names@.len() - i,
        {
            if str_eq(names[i].as_str(), name) {
                return Some(i);
            }
            i = i + 1;
        }
        proof {
            if texts(names@).contains(name@) {
                let k = choose|k: int| 0 <= k < texts(names@).len() && texts(names@)[k] == name@;
                assert(names@[k]@ == name@);
            }
        }
        None
    }

    /// Whether a positional value spreads a value of the literal's struct
    /// (see `is_spread`).
    fn is_spread_value(&self, struct_name: &str, init: &StructFieldInit) -> (r: bool)
        ensures
            r == is_spread(self@, struct_name@, *init),
    {
        match init {
            StructFieldInit::Positional(value) => match &**value {
                Expression::Identifier(id) => {
                    let mut full = self.current_module.clone();
                    full.append("::");
                    full.append(id.as_str());
                    let sym = match self.env.lookup_symbol(full.as_str()) {
                        Some(s) => Some(s),
                        None => self.env.lookup_symbol(id.as_str()),
                    };
                    match sym {
                        Some(s) => match &s.data_type {
                            DataType::Struct(sn) => str_eq(sn.as_str(), struct_name),
                            _ => false,
                        },
                        None => false,
                    }
                },
                _ => false,
            },
            _ => false,
        }
    }

    /// Checks the value of a struct literal field against the field's type
    /// (see `field_check`).
    fn check_field(&mut self, name: &str, expected: &DataType, t: &DataType)
        ensures
            final(self)@ == with_errors(old(self)@, field_check(name@, expected@, t@)),
    {
        proof {
            lemma_with_errors_none(old(self)@);
        }
        let known = match (expected, t) {
            (DataType::Unknown, _) => false,
            (_, DataType::Unknown) => false,
            _ => true,
        };
        if known {
            let mut ctx = owned("struct literal field '");
            ctx.append(name);
            ctx.append("'");
            let ok = self.check_type_compatibility(expected.clone(), t.clone(), ctx.as_str());
            proof {
                if !ok {
                    let m = "Type mismatch in "@ + ctx@ + ": expected "@ + type_text(expected@) + ", got "@ + type_text(t@);
                    lemma_with_error_one(old(self)@, m);
                }
            }
        }
    }

    /// Reports the error that ends a struct literal and pushes `Unknown`.
    fn fail_literal(&mut self, msg: String, Ghost(v): Ghost<AnalyzerView>, Ghost(errs): Ghost<Seq<Seq<char>>>)
        requires
            old(self)@ == with_errors(v, errs),
        ensures
            final(self)@ == (AnalyzerView {
                types: with_errors(v, errs.push(msg@)).types.push(TypeView::Unknown),
                ..with_errors(v, errs.push(msg@))
            }),
    {
        self.report(msg);
        proof {
            lemma_with_errors_then(v, errs, msg@);
        }
        self.push_type(DataType::Unknown);
    }

    /// Types a struct literal whose values have been visited, `value_types`
    /// holding their types in order (see `literal_outcome`): named values go
    /// to their fields, a variable of the same struct spreads over every
    /// field, and other positional values fill the free fields in the
    /// struct's field order. Which order that is the table of the struct's
    /// fields decides (its insertion order here); the contract holds for the
    /// order used, whatever it is. The type is pushed; errors are reported.
    pub fn visit_struct_literal(&mut self, struct_name: &str, fields: &Vec<StructFieldInit>, value_types: &Vec<DataType>)
        requires
            value_types@.len() == fields@.len(),
        ensures
            exists|order: Seq<Seq<char>>|
                #![trigger literal_visited(old(self)@, struct_name@, fields@, types_of(value_types@), order)]
                {
                    &&& old(self)@.struct_fields.contains_key(struct_name@) ==> field_order(
                        order,
                        old(self)@.struct_fields[struct_name@],
                    )
                    &&& final(self)@ == literal_visited(old(self)@, struct_name@, fields@, types_of(value_types@), order)
                },
    {
        let ghost v0 = self@;
        let ghost types = types_of(value_types@);
        proof {
            lemma_with_errors_none(v0);
        }
        let table = match self.struct_fields.get(struct_name) {
            Some(t) => t,
            None => {
                let mut msg = owned("Unknown struct type: '");
                msg.append(struct_name);
                msg.append("'");
                self.fail_literal(msg, Ghost(v0), Ghost(Seq::empty()));
                proof {
                    assert(Seq::<Seq<char>>::empty().push(msg@) =~= seq![msg@]);
                    assert(self@ == literal_visited(v0, struct_name@, fields@, types, Seq::empty()));
                }
                return;
            },
        };
        let names = table.keys();
        let ghost order = texts(names@);
        let ghost fmap = v0.struct_fields[struct_name@];
        let mut expected: Vec<DataType> = Vec::new();
        let mut k: usize = 0;
        while k < names.len()
            invariant
                k <= names@.len(),
                expected@.len() == k,
                fmap == table@.map_values(|d: DataType| d@),
                forall|q: Seq<char>| table@.contains_key(q) <==> exists|i: int| 0 <= i < names@.len() && #[trigger] names@[i]@ == q,
                forall|m: int| 0 <= m < k ==> #[trigger] expected@[m]@ == fmap[names@[m]@],
            decreases names@.len() - k,
        {
            assert(table@.contains_key(names@[k as int]@));
            match table.get(names[k].as_str()) {
                Some(d) => expected.push(d.clone()),
                None => expected.push(DataType::Unknown),
            }
            k = k + 1;
        }
        proof {
            assert forall|q: Seq<char>| fmap.contains_key(q) <==> order.contains(q) by {
                if fmap.contains_key(q) {
                    let i = choose|i: int| 0 <= i < names@.len() && #[trigger] names@[i]@ == q;
                    assert(order[i] == q);
                }
                if order.contains(q) {
                    let i = choose|i: int| 0 <= i < order.len() && order[i] == q;
                    assert(names@[i]@ == q);
                }
            }
            assert forall|a: int, b: int| 0 <= a < order.len() && 0 <= b < order.len() && a != b implies order[a] != order[b] by {
                if a < b {
                    assert(names@[a]@ != names@[b]@);
                } else {
                    assert(names@[b]@ != names@[a]@);
                }
            }
            assert(field_order(order, fmap));
        }
        let mut named: Vec<String> = Vec::new();
        let mut covered: Vec<String> = Vec::new();
        let mut next: usize = 0;
        let mut i: usize = 0;
        proof {
            assert(texts(named@) =~= Seq::<Seq<char>>::empty());
            assert(texts(covered@) =~= Seq::<Seq<char>>::empty());
        }
        while i < fields.len()
            invariant
                i <= fields@.len(),
                v0 == old(self)@,
                value_types@.len() == fields@.len(),
                types == types_of(value_types@),
                v0.struct_fields.contains_key(struct_name@),
                fmap == v0.struct_fields[struct_name@],
                order == texts(names@),
                field_order(order, fmap),
                expected@.len() == names@.len(),
                forall|m: int| 0 <= m < names@.len() ==> #[trigger] expected@[m]@ == fmap[names@[m]@],
                ({
                    let st = literal_scan(v0, struct_name@, fmap, order, fields@, types, i as nat);
                    &&& st.fail is None
                    &&& texts(named@) == st.named
                    &&& texts(covered@) == st.covered
                    &&& next == st.next
                    &&& next <= names@.len()
                    &&& self@ == with_errors(v0, st.errs)
                }),
            decreases fields@.len() - i,
        {
            let ghost st = literal_scan(v0, struct_name@, fmap, order, fields@, types, i as nat);
            let ghost vi = self@;
            proof {
                lemma_with_errors_frame(v0, st.errs);
            }
            match &fields[i] {
                StructFieldInit::Named { name, value: _ } => {
                    match Self::position_of(&names, name.as_str()) {
                        None => {
                            proof {
                                assert(!order.contains(name@));
                                assert(!fmap.contains_key(name@));
                            }
                            let mut msg = owned("Struct '");
                            msg.append(struct_name);
                            msg.append("' has no field '");
                            msg.append(name.as_str());
                            msg.append("'");
                            self.fail_literal(msg, Ghost(v0), Ghost(st.errs));
                            proof {
                                lemma_literal_failed_stays(v0, struct_name@, fmap, order, fields@, types, (i + 1) as nat, fields@.len());
                                assert(self@ == literal_visited(v0, struct_name@, fields@, types, order));
                                assert(v0.struct_fields.contains_key(struct_name@) ==> field_order(order, v0.struct_fields[struct_name@]));
                            }
                            return;
                        },
                        Some(p) => {
                            proof {
                                assert(order[p as int] == name@);
                                assert(order.contains(name@));
                            }
                            if names_contain(&named, name.as_str()) {
                                let mut msg = owned("Field '");
                                msg.append(name.as_str());
                                msg.append("' assigned multiple times in struct literal");
                                self.fail_literal(msg, Ghost(v0), Ghost(st.errs));
                                proof {
                                    lemma_literal_failed_stays(v0, struct_name@, fmap, order, fields@, types, (i + 1) as nat, fields@.len());
                                    assert(self@ == literal_visited(v0, struct_name@, fields@, types, order));
                                    assert(v0.struct_fields.contains_key(struct_name@) ==> field_order(order, v0.struct_fields[struct_name@]));
                                }
                                return;
                            }
                            named.push(name.clone());
                            covered.push(name.clone());
                            proof {
                                assert(texts(named@) =~= st.named.push(name@));
                                assert(texts(covered@) =~= st.covered.push(name@));
                            }
                            self.check_field(name.as_str(), &expected[p], &value_types[i]);
                            proof {
                                lemma_with_errors_concat(v0, st.errs, field_check(name@, fmap[name@], types[i as int]));
                                let nx = literal_scan(v0, struct_name@, fmap, order, fields@, types, (i + 1) as nat);
                                assert(nx == literal_step(v0, struct_name@, fmap, order, st, fields@[i as int], types[i as int]));
                                assert(fmap.contains_key(name@));
                                assert(!st.named.contains(name@));
                                assert(nx.named == st.named.push(name@));
                                assert(nx.errs == st.errs + field_check(name@, fmap[name@], types[i as int]));
                                assert(expected@[p as int]@ == fmap[name@]);
                            }
                        },
                    }
                },
                StructFieldInit::Positional(_) => {
                    if self.is_spread_value(struct_name, &fields[i]) {
                        let ghost base = texts(covered@);
                        let mut m: usize = 0;
                        while m < names.len()
                            invariant
                                m <= names@.len(),
                                order == texts(names@),
                                texts(covered@) == base + order.take(m as int),
                            decreases names@.len() - m,
                        {
                            let ghost before = covered@;
                            covered.push(names[m].clone());
                            proof {
                                assert(texts(covered@) =~= texts(before).push(names@[m as int]@));
                                assert(order.take(m + 1) =~= order.take(m as int).push(names@[m as int]@));
                                assert(texts(covered@) =~= base + order.take(m + 1));
                            }
                            m = m + 1;
                        }
                        proof {
                            assert(order.take(order.len() as int) =~= order);
                            let nx = literal_scan(v0, struct_name@, fmap, order, fields@, types, (i + 1) as nat);
                            assert(nx == literal_step(v0, struct_name@, fmap, order, st, fields@[i as int], types[i as int]));
                            assert(nx.covered == st.covered + order);
                            assert(self@ == vi);
                        }
                    } else {
                        let ghost from = next;
                        while next < names.len() && names_contain(&covered, names[next].as_str())
                            invariant
                                from <= next <= names@.len(),
                                order == texts(names@),
                                next_uncovered(order, texts(covered@), next as int) == next_uncovered(
                                    order,
                                    texts(covered@),
                                    from as int,
                                ),
                            decreases names@.len() - next,
                        {
                            next = next + 1;
                        }
                        if next >= names.len() {
                            let mut msg = owned("Too many positional fields in struct literal for '");
                            msg.append(struct_name);
                            msg.append("'");
                            self.fail_literal(msg, Ghost(v0), Ghost(st.errs));
                            proof {
                                lemma_literal_failed_stays(v0, struct_name@, fmap, order, fields@, types, (i + 1) as nat, fields@.len());
                                assert(self@ == literal_visited(v0, struct_name@, fields@, types, order));
                                assert(v0.struct_fields.contains_key(struct_name@) ==> field_order(order, v0.struct_fields[struct_name@]));
                            }
                            return;
                        }
                        let ghost slot = order[next as int];
                        covered.push(names[next].clone());
                        proof {
                            assert(texts(covered@) =~= st.covered.push(slot));
                        }
                        self.check_field(names[next].as_str(), &expected[next], &value_types[i]);
                        proof {
                            lemma_with_errors_concat(v0, st.errs, field_check(slot, fmap[slot], types[i as int]));
                            let nx = literal_scan(v0, struct_name@, fmap, order, fields@, types, (i + 1) as nat);
                            assert(nx == literal_step(v0, struct_name@, fmap, order, st, fields@[i as int], types[i as int]));
                            assert(next_uncovered(order, st.covered, st.next) == next);
                            assert(nx.covered == st.covered.push(slot));
                        }
                        next = next + 1;
                    }
                },
            }
            i = i + 1;
        }
        proof {
            assert(fields@.len() as nat == fields@.len());
        }
        self.push_type(DataType::Struct(owned(struct_name)));
        proof {
            assert(self@ == literal_visited(v0, struct_name@, fields@, types, order));
        }
    }

    /// Takes the top type off the stack, if there is one.
    fn pop_type(&mut self)
        ensures
            final(self)@ == (AnalyzerView {
                types: if old(self)@.types.len() > 0 {
                    old(self)@.types.drop_last()
                } else {
                    old(self)@.types
                },
                ..old(self)@
            }),
    {
        if self.type_stack.len() > 0 {
            self.type_stack.pop();
            assert(self@.types =~= old(self)@.types.drop_last());
        }
    }

    /// The type of field `member` of struct `sn`, if the struct is known
    /// and has it.
    fn field_type_of(&self, sn: &str, member: &str) -> (r: Option<Option<DataType>>)
        ensures
            match r {
                None => !self@.struct_fields.contains_key(sn@),
                Some(None) => self@.struct_fields.contains_key(sn@) && !self@.struct_fields[sn@].contains_key(member@),
                Some(Some(t)) => self@.struct_fields.contains_key(sn@) && self@.struct_fields[sn@].contains_key(member@)
                    && self@.struct_fields[sn@][member@] == t@,
            },
    {
        match self.struct_fields.get(sn) {
            Some(fields) => match fields.get(member) {
                Some(t) => Some(Some(t.clone())),
                None => Some(None),
            },
            None => None,
        }
    }

    /// Types a member access `object.member` whose object has been visited,
    /// its type being `object_type` (see `member_outcome`). The type is
    /// pushed; the error, if any, is reported.
    pub fn visit_member_access(&mut self, object: Option<&Expression>, member: &str, object_type: DataType)
        ensures
            final(self)@ == member_visited(old(self)@, deref_opt(object), member@, object_type@),
    {
        proof {
            lemma_with_errors_none(old(self)@);
        }
        if object.is_none() {
            let mut msg = owned("Member access left side must be an identifier");
            proof {
                lemma_with_errors_frame(old(self)@, seq![msg@]);
            }
            self.report(msg);
            self.pop_type();
            self.push_type(DataType::Unknown);
            return;
        }
        let t = self.member_type(object, member, &object_type);
        proof {
            lemma_with_errors_frame(old(self)@, member_outcome(old(self)@, deref_opt(object), member@, object_type@).1);
        }
        self.push_type(t);
    }

    /// The type of `object.member` (see `member_outcome`), its error
    /// reported.
    fn member_type(&mut self, object: Option<&Expression>, member: &str, object_type: &DataType) -> (t: DataType)
        ensures
            t@ == member_outcome(old(self)@, deref_opt(object), member@, object_type@).0,
            final(self)@ == with_errors(old(self)@, member_outcome(old(self)@, deref_opt(object), member@, object_type@).1),
    {
        proof {
            lemma_with_errors_none(old(self)@);
        }
        let o = match object {
            Some(Expression::Identifier(o)) => o,
            _ => {
                self.report(owned("Member access left side must be an identifier"));
                return DataType::Unknown;
            },
        };
        if str_eq(o.as_str(), "self") {
            let found = match &self.current_impl_struct {
                Some(sn) => match self.field_type_of(sn.as_str(), member) {
                    Some(Some(t)) => Some(Ok(t)),
                    Some(None) => {
                        let mut msg = owned("Struct '");
                        msg.append(sn.as_str());
                        msg.append("' has no field '");
                        msg.append(member);
                        msg.append("'");
                        Some(Err(msg))
                    },
                    None => None,
                },
                None => None,
            };
            return match found {
                Some(Ok(t)) => t,
                Some(Err(msg)) => {
                    self.report(msg);
                    DataType::Unknown
                },
                None => {
                    self.report(owned("'self' used outside of impl block"));
                    DataType::Unknown
                },
            };
        }
        let mut full = o.clone();
        full.append("::");
        full.append(member);
        match self.symbol_type_named(full.as_str()) {
            Some(t) => {
                let mut msg = owned("Use '::' for module access: '");
                msg.append(o.as_str());
                msg.append("::");
                msg.append(member);
                msg.append("' instead of '");
                msg.append(o.as_str());
                msg.append(".");
                msg.append(member);
                msg.append("'");
                self.report(msg);
                return t;
            },
            None => {},
        }
        match object_type {
            DataType::Struct(sn) => match self.field_type_of(sn.as_str(), member) {
                Some(Some(t)) => {
                    let chars = str_chars(member);
                    let private = chars.len() > 0 && chars[0] == '_';
                    let own = match &self.current_impl_struct {
                        Some(cur) => str_eq(cur.as_str(), sn.as_str()),
                        None => false,
                    };
                    if private && !own {
                        let mut msg = owned("Private field '");
                        msg.append(member);
                        msg.append("' of struct '");
                        msg.append(sn.as_str());
                        msg.append("' is not accessible here");
                        self.report(msg);
                        return DataType::Unknown;
                    }
                    return t;
                },
                Some(None) => {
                    let mut msg = owned("Struct '");
                    msg.append(sn.as_str());
                    msg.append("' has no field '");
                    msg.append(member);
                    msg.append("'");
                    self.report(msg);
                    return DataType::Unknown;
                },
                None => {},
            },
            _ => {},
        }
        let mut msg = owned("Module '");
        msg.append(o.as_str());
        msg.append("' has no member '");
        msg.append(member);
        msg.append("'");
        self.report(msg);
        DataType::Unknown
    }

    /// Types an identifier (see `ident_outcome`): its type is pushed; a name
    /// that denotes nothing is reported.
    pub fn visit_identifier(&mut self, name: &str)
        ensures
            final(self)@ == typed_with(old(self)@, ident_outcome(old(self)@, name@).0, ident_outcome(old(self)@, name@).1),
    {
        proof {
            lemma_with_errors_none(old(self)@);
        }
        if str_eq(name, "self") {
            match &self.current_impl_struct {
                Some(sn) => {
                    let t = DataType::Struct(sn.clone());
                    self.push_type(t);
                },
                None => {
                    let msg = owned("'self' used outside of impl block");
                    proof {
                        lemma_with_errors_frame(old(self)@, seq![msg@]);
                    }
                    self.report(msg);
                    self.push_type(DataType::Unknown);
                },
            }
            return;
        }
        let field: Option<DataType> = match &self.current_impl_struct {
            Some(sn) => match self.field_type_of(sn.as_str(), name) {
                Some(Some(t)) => Some(t),
                _ => None,
            },
            None => None,
        };
        match field {
            Some(t) => {
                self.push_type(t);
                return;
            },
            None => {},
        }
        let mut full = self.current_module.clone();
        full.append("::");
        full.append(name);
        let found = match self.symbol_type_named(name) {
            Some(t) => Some(t),
            None => self.symbol_type_named(full.as_str()),
        };
        match found {
            Some(t) => self.push_type(t),
            None => {
                let mut msg = owned("Undeclared identifier: '");
                msg.append(name);
                msg.append("'");
                proof {
                    lemma_with_errors_frame(old(self)@, seq![msg@]);
                }
                self.report(msg);
                self.push_type(DataType::Unknown);
            },
        }
    }

    /// Types a unary operator whose operand has been visited, its type left
    /// on top of the stack (see `unary_outcome`): the result type is pushed
    /// above it; the error, if any, is reported.
    pub fn visit_unary_expression(&mut self, op: &str)
        ensures
            final(self)@ == typed_with(
                old(self)@,
                unary_outcome(op@, current_type(old(self)@)).0,
                unary_outcome(op@, current_type(old(self)@)).1,
            ),
    {
        proof {
            lemma_with_errors_none(old(self)@);
        }
        let t = self.get_current_type();
        if str_eq(op, "&") {
            self.push_type(DataType::Unknown);
            return;
        }
        if str_eq(op, "-") || str_eq(op, "+") {
            if !Environment::is_numeric_type(&t) {
                let mut msg = owned("Unary operator '");
                msg.append(op);
                msg.append("' requires numeric operand");
                proof {
                    lemma_with_errors_frame(old(self)@, seq![msg@]);
                }
                self.report(msg);
            }
            self.push_type(t);
            return;
        }
        if str_eq(op, "!") {
            let is_bool = match t {
                DataType::Bool => true,
                _ => false,
            };
            if !is_bool {
                let msg = owned("Logical not '!' requires boolean operand");
                proof {
                    lemma_with_errors_frame(old(self)@, seq![msg@]);
                }
                self.report(msg);
            }
            self.push_type(DataType::Bool);
            return;
        }
        let mut msg = owned("Unknown unary operator: ");
        msg.append(op);
        proof {
            lemma_with_errors_frame(old(self)@, seq![msg@]);
        }
        self.report(msg);
        self.push_type(DataType::Unknown);
    }

    /// Types `array[index]` whose parts have been visited, their types being
    /// `array_type` and `index_type` (see `index_outcome`): the element type
    /// is pushed; the error, if any, is reported.
    pub fn visit_array_index(&mut self, array: Option<&Expression>, array_type: DataType, index_type: DataType)
        ensures
            final(self)@ == typed_with(
                old(self)@,
                index_outcome(old(self)@, deref_opt(array), array_type@, index_type@).0,
                index_outcome(old(self)@, deref_opt(array), array_type@, index_type@).1,
            ),
    {
        proof {
            lemma_with_errors_none(old(self)@);
        }
        let int_index = match index_type {
            DataType::Int => true,
            _ => false,
        };
        if !int_index {
            let msg = owned("Array index must be integer");
            proof {
                lemma_with_errors_frame(old(self)@, seq![msg@]);
            }
            self.report(msg);
            self.push_type(DataType::Unknown);
            return;
        }
        match array {
            Some(Expression::Identifier(id)) => {
                if self.impl_field(id.as_str()) {
                    let t = match array_type {
                        DataType::Nullable(inner) => *inner,
                        other => other,
                    };
                    self.push_type(t);
                    return;
                }
                let found: Option<(bool, DataType)> = match self.env.lookup_symbol(id.as_str()) {
                    Some(sym) => Some((sym.is_array, sym.data_type.clone())),
                    None => None,
                };
                match found {
                    Some((is_array, t)) => {
                        if !is_array {
                            let mut msg = owned("Variable '");
                            msg.append(id.as_str());
                            msg.append("' is not an array");
                            proof {
                                lemma_with_errors_frame(old(self)@, seq![msg@]);
                            }
                            self.report(msg);
                            self.push_type(DataType::Unknown);
                        } else {
                            self.push_type(t);
                        }
                    },
                    None => {
                        let mut msg = owned("Array variable '");
                        msg.append(id.as_str());
                        msg.append("' not declared");
                        proof {
                            lemma_with_errors_frame(old(self)@, seq![msg@]);
                        }
                        self.report(msg);
                        self.push_type(DataType::Unknown);
                    },
                }
            },
            _ => self.push_type(array_type),
        }
    }

    /// Types an array literal whose elements have been visited, their types
    /// being `element_types` (see `array_literal_type` and `mixed_errors`):
    /// an array of the first element's type is pushed; each element that
    /// does not fit it is reported.
    pub fn visit_array_literal(&mut self, element_types: &Vec<DataType>)
        ensures
            final(self)@ == typed_with(
                old(self)@,
                array_literal_type(types_of(element_types@)),
                mixed_errors(types_of(element_types@), element_types@.len()),
            ),
    {
        let ghost types = types_of(element_types@);
        proof {
            lemma_with_errors_none(old(self)@);
        }
        if element_types.len() == 0 {
            assert(mixed_errors(types, 0) =~= Seq::<Seq<char>>::empty());
            let u = DataType::Unknown;
            assert(u@ == TypeView::Unknown);
            let t = DataType::Array(Box::new(u));
            assert(t@ == array_literal_type(types));
            self.push_type(t);
            assert(with_errors(old(self)@, mixed_errors(types, 0)) == old(self)@);
            return;
        }
        let first = element_types[0].clone();
        let mut i: usize = 1;
        while i < element_types.len()
            invariant
                1 <= i <= element_types@.len(),
                types == types_of(element_types@),
                first@ == types[0],
                self@ == with_errors(old(self)@, mixed_errors(types, i as nat)),
            decreases element_types@.len() - i,
        {
            let et = &element_types[i];
            if !Environment::is_type_compatible(&first, et) {
                let mut msg = owned("Mixed types in array literal: ");
                let a = data_type_to_string(first.clone());
                msg.append(a.as_str());
                msg.append(" and ");
                let b = data_type_to_string(et.clone());
                msg.append(b.as_str());
                self.report(msg);
                proof {
                    lemma_with_errors_then(old(self)@, mixed_errors(types, i as nat), msg@);
                    assert(mixed_errors(types, (i + 1) as nat) =~= mixed_errors(types, i as nat).push(msg@));
                }
            } else {
                assert(mixed_errors(types, (i + 1) as nat) =~= mixed_errors(types, i as nat));
            }
            i = i + 1;
        }
        proof {
            lemma_with_errors_frame(old(self)@, mixed_errors(types, element_types@.len()));
        }
        self.push_type(DataType::Array(Box::new(first)));
    }

    /// Types `inner?` whose operand has been visited, its type being
    /// `inner_type` (`None` without an operand; see `try_type`).
    pub fn visit_try_operator(&mut self, inner_type: Option<DataType>)
        ensures
            final(self)@ == (AnalyzerView {
                types: old(self)@.types.push(try_type(match inner_type {
                    Some(t) => Some(t@),
                    None => None,
                })),
                ..old(self)@
            }),
    {
        let t = match inner_type {
            Some(DataType::Struct(sn)) => {
                if str_eq(sn.as_str(), "Result") {
                    DataType::Int
                } else {
                    DataType::Struct(sn)
                }
            },
            Some(t) => t,
            None => DataType::Unknown,
        };
        self.push_type(t);
    }

    /// Types a range whose arguments have been visited, their types being
    /// `argument_types`: each argument that is not a number is reported, the
    /// struct `Range` is made known (without fields) if it was not, and
    /// `Range` is pushed.
    pub fn visit_range_expression(&mut self, argument_types: &Vec<DataType>)
        ensures
            ({
                let w = with_errors(old(self)@, range_errors(types_of(argument_types@), argument_types@.len()));
                final(self)@ == (AnalyzerView {
                    scopes: final(self)@.scopes,
                    types: w.types.push(TypeView::Struct("Range"@)),
                    struct_fields: if w.struct_fields.contains_key("Range"@) {
                        w.struct_fields
                    } else {
                        w.struct_fields.insert("Range"@, Map::empty())
                    },
                    ..w
                })
            }),
            scopes_kept(old(self)@.scopes, final(self)@.scopes),
            !old(self)@.struct_fields.contains_key("Range"@) ==> final(self)@.scopes.len() > 0
                && final(self)@.scopes[0].contains_key("Range"@),
    {
        let ghost types = types_of(argument_types@);
        proof {
            lemma_with_errors_none(old(self)@);
            lemma_scopes_kept_refl(old(self)@.scopes);
        }
        let mut i: usize = 0;
        while i < argument_types.len()
            invariant
                i <= argument_types@.len(),
                types == types_of(argument_types@),
                self@ == with_errors(old(self)@, range_errors(types, i as nat)),
            decreases argument_types@.len() - i,
        {
            if !Environment::is_numeric_type(&argument_types[i]) {
                let msg = owned("Range arguments must be numeric");
                self.report(msg);
                proof {
                    lemma_with_errors_then(old(self)@, range_errors(types, i as nat), msg@);
                    assert(range_errors(types, (i + 1) as nat) =~= range_errors(types, i as nat).push(msg@));
                }
            } else {
                assert(range_errors(types, (i + 1) as nat) =~= range_errors(types, i as nat));
            }
            i = i + 1;
        }
        proof {
            lemma_with_errors_frame(old(self)@, range_errors(types, argument_types@.len()));
        }
        let ghost w = self@;
        proof {
            reveal_strlit("Range");
        }
        if !self.struct_fields.contains_key("Range") {
            let empty: Table<DataType> = Table::new();
            assert(empty@.map_values(|d: DataType| d@) =~= Map::<Seq<char>, TypeView>::empty());
            self.struct_fields.insert(owned("Range"), empty);
            assert(self@.struct_fields =~= w.struct_fields.insert("Range"@, Map::empty()));
            self.declare_module_name("Range");
        }
        self.push_type(DataType::Struct(owned("Range")));
    }

    /// Types a format string whose values have been visited: each value
    /// that did not parse is reported, and `str` is pushed.
    pub fn visit_format_string(&mut self, values: &Vec<Option<Box<Expression>>>)
        ensures
            final(self)@ == typed_with(old(self)@, TypeView::Str, format_errors(values@, values@.len())),
    {
        proof {
            lemma_with_errors_none(old(self)@);
        }
        let mut i: usize = 0;
        while i < values.len()
            invariant
                i <= values@.len(),
                self@ == with_errors(old(self)@, format_errors(values@, i as nat)),
            decreases values@.len() - i,
        {
            if values[i].is_none() {
                let msg = owned("Invalid expression in format string");
                self.report(msg);
                proof {
                    lemma_with_errors_then(old(self)@, format_errors(values@, i as nat), msg@);
                    assert(format_errors(values@, (i + 1) as nat) =~= format_errors(values@, i as nat).push(msg@));
                }
            } else {
                assert(format_errors(values@, (i + 1) as nat) =~= format_errors(values@, i as nat));
            }
            i = i + 1;
        }
        proof {
            lemma_with_errors_frame(old(self)@, format_errors(values@, values@.len()));
        }
        self.push_type(DataType::Str);
    }

    /// Checks a `return` (see `return_errors`); a value has been visited,
    /// its type left on top of the stack. The function is marked as having
    /// a return.
    pub fn visit_return_statement(&mut self, has_value: bool)
        ensures
            final(self)@ == with_errors(
                AnalyzerView { has_return: true, ..old(self)@ },
                return_errors(old(self)@, has_value, current_type(old(self)@)),
            ),
    {
        self.has_return_statement = true;
        let ghost v1 = self@;
        assert(v1 == AnalyzerView { has_return: true, ..old(self)@ });
        proof {
            lemma_with_errors_none(v1);
        }
        if self.current_function.as_str().is_empty() {
            let msg = owned("Return statement outside function");
            self.report(msg);
            return;
        }
        if !has_value {
            let is_none = match self.current_function_return_type {
                DataType::None_ => true,
                _ => false,
            };
            if !is_none {
                let mut msg = owned("Function '");
                msg.append(self.current_function.as_str());
                msg.append("' expects return type ");
                let t = data_type_to_string(self.current_function_return_type.clone());
                msg.append(t.as_str());
                msg.append(", but got none");
                self.report(msg);
            }
            return;
        }
        let t = self.get_current_type();
        let expected = self.current_function_return_type.clone();
        let mut ctx = owned("function '");
        ctx.append(self.current_function.as_str());
        ctx.append("' return");
        let ok = self.check_type_compatibility(expected, t, ctx.as_str());
        proof {
            if !ok {
                let m = "Type mismatch in "@ + ctx@ + ": expected "@ + type_text(v1.function_return_type) + ", got "@
                    + type_text(current_type(v1));
                lemma_with_error_one(v1, m);
            }
        }
    }

    /// Checks a `break`: it must stand inside a loop.
    pub fn visit_break_statement(&mut self)
        ensures
            final(self)@ == if old(self)@.loop_depth == 0 {
                with_errors(old(self)@, seq!["Break statement outside loop"@])
            } else {
                old(self)@
            },
    {
        if self.loop_depth == 0 {
            self.report(owned("Break statement outside loop"));
        }
    }

    /// Checks a `continue`: it must stand inside a loop.
    pub fn visit_continue_statement(&mut self)
        ensures
            final(self)@ == if old(self)@.loop_depth == 0 {
                with_errors(old(self)@, seq!["Continue statement outside loop"@])
            } else {
                old(self)@
            },
    {
        if self.loop_depth == 0 {
            self.report(owned("Continue statement outside loop"));
        }
    }

    /// Checks the condition of an `if` whose condition has been visited,
    /// its type being `cond_type` (`None` without a condition): it must be a
    /// boolean or a number. The branches are visited next.
    pub fn visit_if_statement(&mut self, cond_type: Option<DataType>)
        ensures
            final(self)@ == with_errors(old(self)@, condition_errors("If condition must be boolean or numeric type"@, match cond_type {
                Some(t) => Some(t@),
                None => None,
            })),
    {
        self.check_condition("If condition must be boolean or numeric type", cond_type);
    }

    /// Checks the condition of a `while` whose condition has been visited
    /// (as for `if`) and enters its body: the loop depth grows by one until
    /// `leave_loop`.
    pub fn visit_while_statement(&mut self, cond_type: Option<DataType>)
        requires
            old(self)@.loop_depth < i32::MAX,
        ensures
            final(self)@ == (AnalyzerView {
                loop_depth: (old(self)@.loop_depth + 1) as i32,
                ..with_errors(old(self)@, condition_errors("While condition must be boolean or numeric type"@, match cond_type {
                    Some(t) => Some(t@),
                    None => None,
                }))
            }),
    {
        let ghost ct = match &cond_type {
            Some(t) => Some((*t)@),
            None => None,
        };
        self.check_condition("While condition must be boolean or numeric type", cond_type);
        proof {
            lemma_with_errors_frame(old(self)@, condition_errors("While condition must be boolean or numeric type"@, ct));
        }
        self.loop_depth = self.loop_depth + 1;
    }

    /// Leaves the body of a loop.
    pub fn leave_loop(&mut self)
        requires
            old(self)@.loop_depth > i32::MIN,
        ensures
            final(self)@ == (AnalyzerView { loop_depth: (old(self)@.loop_depth - 1) as i32, ..old(self)@ }),
    {
        self.loop_depth = self.loop_depth - 1;
    }

    fn check_condition(&mut self, msg: &str, cond_type: Option<DataType>)
        ensures
            final(self)@.loop_depth == old(self)@.loop_depth,
            final(self)@ == match cond_type {
                Some(t) => if t@ != TypeView::Bool && !numeric(t@) {
                    with_errors(old(self)@, seq![msg@])
                } else {
                    old(self)@
                },
                None => old(self)@,
            },
    {
        match cond_type {
            Some(t) => {
                let is_bool = match t {
                    DataType::Bool => true,
                    _ => false,
                };
                if !is_bool && !Environment::is_numeric_type(&t) {
                    proof {
                        lemma_with_errors_frame(old(self)@, seq![msg@]);
                    }
                    self.report(owned(msg));
                }
            },
            None => {},
        }
    }

    /// Enters a `for` loop whose iterable has been visited, its type being
    /// `iter_type` (`None` without an iterable): a new scope holds the index
    /// variable (an immutable `int`) and, with an iterable and a second
    /// name, the value variable (see `loop_value_type`); the iterable is
    /// checked (see `iterable_errors`, names resolving once the index
    /// variable is declared); the loop depth grows by one until
    /// `leave_for_loop`.
    pub fn visit_for_statement(&mut self, loop_vars: &Vec<String>, iterable: Option<&Expression>, iter_type: Option<DataType>)
        requires
            loop_vars@.len() >= 1,
            old(self)@.scopes.len() < i32::MAX,
            old(self)@.loop_depth < i32::MAX,
        ensures
            ({
                let n = old(self)@.scopes.len() as int;
                let s = final(self)@.scopes;
                let i0 = loop_vars@[0]@;
                let has_value = iter_type is Some && loop_vars@.len() >= 2;
                let mid = old(self)@.scopes.push(Map::<Seq<char>, Symbol>::empty().insert(i0, s[n][i0]));
                &&& s.len() == n + 1
                &&& forall|i: int| 0 <= i < n ==> s[i] == old(self)@.scopes[i]
                &&& s[n].contains_key(i0)
                &&& is_variable_symbol(s[n][i0], i0, TypeView::Int, n, false)
                &&& has_value && loop_vars@[1]@ != i0 ==> s[n].contains_key(loop_vars@[1]@) && is_variable_symbol(
                    s[n][loop_vars@[1]@],
                    loop_vars@[1]@,
                    loop_value_type(iter_type->0@),
                    n,
                    false,
                )
                &&& forall|k: Seq<char>| #[trigger] s[n].contains_key(k) <==> (k == i0 || (has_value && k == loop_vars@[1]@))
                &&& final(self)@ == (AnalyzerView {
                    scopes: s,
                    loop_depth: (old(self)@.loop_depth + 1) as i32,
                    ..with_errors(old(self)@, match iter_type {
                        Some(t) => iterable_errors(old(self)@, mid, deref_opt(iterable), t@),
                        None => Seq::empty(),
                    })
                })
            }),
    {
        let ghost v0 = self@;
        let ghost n = v0.scopes.len() as int;
        proof {
            lemma_with_errors_none(v0);
        }
        self.env.enter_scope();
        let ghost s1 = self.env@;
        assert(with_global(s1) == s1);
        let accepted = self.env.declare_variable(loop_vars[0].as_str(), &DataType::Int, false);
        let ghost s2 = self.env@;
        let ghost i0 = loop_vars@[0]@;
        proof {
            assert(accepted);
            assert(s2[n] == Map::<Seq<char>, Symbol>::empty().insert(i0, s2[n][i0]));
            assert(s2 =~= v0.scopes.push(Map::<Seq<char>, Symbol>::empty().insert(i0, s2[n][i0])));
        }
        match iter_type {
            Some(t) => {
                if !self.iterable_ok(&t) {
                    let is_array_var = match iterable {
                        Some(Expression::Identifier(id)) => match self.env.lookup_symbol(id.as_str()) {
                            Some(s) => s.is_array,
                            None => false,
                        },
                        _ => false,
                    };
                    if !is_array_var {
                        let ghost before = self@;
                        let msg = owned("For loop iterable must be range, string, or array");
                        proof {
                            assert(before == (AnalyzerView { scopes: s2, ..v0 }));
                            lemma_with_errors_frame(before, seq![msg@]);
                            lemma_with_errors_frame(v0, seq![msg@]);
                            lemma_with_errors_same(before, v0, seq![msg@]);
                        }
                        self.report(msg);
                        proof {
                            assert(self.env@ == s2);
                            assert(self@ == (AnalyzerView { scopes: s2, ..with_errors(v0, seq![msg@]) }));
                        }
                    }
                }
                let ghost s3 = self.env@;
                assert(s3 == s2);
                if loop_vars.len() >= 2 {
                    let vt = match &t {
                        DataType::Str => DataType::Str,
                        DataType::Array(e) => (**e).clone(),
                        _ => DataType::Int,
                    };
                    proof {
                        match t {
                            DataType::Str => {},
                            DataType::Array(e) => {
                                assert(t@ == TypeView::Array(Box::new((*e)@)));
                            },
                            DataType::Int => {},
                            _ => {},
                        }
                        assert(vt@ == loop_value_type(t@));
                        assert(with_global(s3) == s3);
                    }
                    self.env.declare_variable(loop_vars[1].as_str(), &vt, false);
                }
            },
            None => {},
        }
        self.loop_depth = self.loop_depth + 1;
    }

    /// Whether a `for` loop accepts walking a value of type `t` (see
    /// `iterable_accepted`).
    fn iterable_ok(&self, t: &DataType) -> (r: bool)
        ensures
            r == iterable_accepted(self@, t@),
    {
        match t {
            DataType::Int | DataType::Str | DataType::Unknown | DataType::Array(_) => true,
            DataType::Struct(s) => str_eq(s.as_str(), "Range") || str_eq(s.as_str(), "Vec") || self.is_generic_param(
                s.as_str(),
            ),
            _ => false,
        }
    }

    /// Leaves the body of a `for` loop and its scope.
    pub fn leave_for_loop(&mut self)
        requires
            old(self)@.loop_depth > i32::MIN,
        ensures
            final(self)@ == (AnalyzerView {
                scopes: if old(self)@.scopes.len() > 0 {
                    old(self)@.scopes.drop_last()
                } else {
                    old(self)@.scopes
                },
                loop_depth: (old(self)@.loop_depth - 1) as i32,
                ..old(self)@
            }),
    {
        self.loop_depth = self.loop_depth - 1;
        self.env.exit_scope();
    }

    /// Types a cast whose operand has been visited (its type is left on the
    /// stack): the type the target annotation denotes is pushed, each unknown
    /// name in it reported.
    pub fn visit_cast_expression(&mut self, target: &TypeNode)
        ensures
            ({
                let (t, unknown) = ast_type(*target, old(self)@.generics, old(self)@.struct_fields.dom());
                final(self)@ == typed_with(old(self)@, t, unknown_type_errors(unknown))
            }),
    {
        let t = self.get_data_type_from_ast(Some(target));
        proof {
            let (tv, unknown) = ast_type(*target, old(self)@.generics, old(self)@.struct_fields.dom());
            lemma_with_errors_frame(old(self)@, unknown_type_errors(unknown));
        }
        self.push_type(t);
    }

    /// Checks the size of an array type whose size expression has been
    /// visited, its type being `size_type` (`None` without a size): it must
    /// be an integer.
    pub fn visit_array_type(&mut self, size_type: Option<DataType>)
        ensures
            final(self)@ == match size_type {
                Some(t) => if t@ != TypeView::Int {
                    with_errors(old(self)@, seq!["Array size must be integer"@])
                } else {
                    old(self)@
                },
                None => old(self)@,
            },
    {
        match size_type {
            Some(DataType::Int) => {},
            Some(_) => self.report(owned("Array size must be integer")),
            None => {},
        }
    }

}

// ==================== parameters and functions ====================

/// The annotation is an array type (`T[]` or `T[n]`).
pub open spec fn is_array_annotation(tp: Option<Box<TypeNode>>) -> bool {
    match tp {
        Some(b) => match *b {
            TypeNode::Array { .. } => true,
            _ => false,
        },
        None => false,
    }
}

/// The type a parameter of type `t` is recorded with: an array parameter is
/// passed by reference and recorded with its element type.
pub open spec fn parameter_type(t: TypeView, is_array: bool) -> TypeView {
    if is_array {
        match t {
            TypeView::Array(e) => *e,
            _ => t,
        }
    } else {
        t
    }
}

/// The state after parameter `p` is declared in the innermost scope of
/// `s` (`before` being that scope as it was), from the outcome `after`:
/// only that scope changes, gaining the parameter's name; a new name is a
/// variable of the parameter's type at that level, mutable and marked as an
/// array exactly when the parameter is an array; a name already there keeps
/// its symbol, marked as an array when the parameter is one.
pub open spec fn parameter_declared(
    s: Seq<Map<Seq<char>, Symbol>>,
    after: Seq<Map<Seq<char>, Symbol>>,
    name: Seq<char>,
    t: TypeView,
    is_array: bool,
) -> bool {
    let last = s.len() - 1;
    &&& s.len() >= 1
    &&& after.len() == s.len()
    &&& forall|i: int| 0 <= i < last ==> after[i] == s[i]
    &&& after[last].contains_key(name)
    &&& after[last] == s[last].insert(name, after[last][name])
    &&& if s[last].contains_key(name) {
        after[last][name] == if is_array {
            Symbol { is_array: true, ..s[last][name] }
        } else {
            s[last][name]
        }
    } else {
        &&& after[last][name].is_array == is_array
        &&& is_variable_symbol(Symbol { is_array: false, ..after[last][name] }, name, t, last, is_array)
    }
}

impl SemanticAnalyzer {
    /// Declares a parameter in the innermost scope: its type is read from
    /// its annotation (unknown names reported); an array parameter is
    /// recorded with its element type, as a mutable array (see
    /// `parameter_declared`).
    pub fn visit_parameter(&mut self, param: &Parameter)
        requires
            with_global(old(self)@.scopes).len() <= i32::MAX,
        ensures
            ({
                let (t, unknown) = opt_ast_type(param.param_type, old(self)@.generics, old(self)@.struct_fields.dom());
                let arr = is_array_annotation(param.param_type);
                &&& final(self)@ == (AnalyzerView {
                    scopes: final(self)@.scopes,
                    ..with_errors(old(self)@, unknown_type_errors(unknown))
                })
                &&& parameter_declared(
                    with_global(old(self)@.scopes),
                    final(self)@.scopes,
                    param.name@,
                    parameter_type(t, arr),
                    arr,
                )
            }),
    {
        let ghost v0 = self@;
        let t = match &param.param_type {
            Some(b) => self.get_data_type_from_ast(Some(&**b)),
            None => self.get_data_type_from_ast(None),
        };
        proof {
            let (tv, unknown) = opt_ast_type(param.param_type, v0.generics, v0.struct_fields.dom());
            lemma_with_errors_frame(v0, unknown_type_errors(unknown));
            if param.param_type is None {
                assert(unknown_type_errors(unknown) =~= Seq::<Seq<char>>::empty());
                lemma_with_errors_none(v0);
            }
        }
        let is_array = match &param.param_type {
            Some(b) => match &**b {
                TypeNode::Array { .. } => true,
                _ => false,
            },
            None => false,
        };
        let ghost tv = t@;
        assert(is_array == is_array_annotation(param.param_type));
        let stored = if is_array {
            match t {
                DataType::Array(e) => {
                    assert(tv == TypeView::Array(Box::new((*e)@)));
                    *e
                },
                other => other,
            }
        } else {
            t
        };
        assert(stored@ == parameter_type(tv, is_array));
        let ghost s = with_global(self.env@);
        let ghost v1 = self@;
        self.env.declare_variable(param.name.as_str(), &stored, is_array);
        let ghost s1 = self.env@;
        let ghost last = s1.len() - 1;
        let ghost n = param.name@;
        proof {
            if s[last].contains_key(n) {
                assert(s1[last] == s[last]);
                assert(s1[last] =~= s[last].insert(n, s1[last][n]));
            } else {
                assert(Symbol { is_array: false, ..s1[last][n] } == s1[last][n]);
            }
        }
        if is_array {
            assert(s1.last().contains_key(param.name@));
            assert(scope_of(s1, param.name@) == last);
            match self.env.lookup_symbol_mut(param.name.as_str()) {
                Some(sym) => {
                    sym.is_array = true;
                },
                None => {},
            }
            proof {
                let s2 = self.env@;
                assert(s2[last][n] == Symbol { is_array: true, ..s1[last][n] });
                assert(s2[last] =~= s[last].insert(n, s2[last][n]));
                if !s[last].contains_key(n) {
                    assert(Symbol { is_array: false, ..s2[last][n] } == s1[last][n]);
                }
            }
        }
        assert(self@ == (AnalyzerView { scopes: self@.scopes, ..v1 }));
        assert(parameter_declared(s, self@.scopes, param.name@, stored@, is_array));
    }
}

/// A function's symbol in the global scope: declared at level 0 in module
/// `module`, returning `t`.
pub open spec fn function_symbol(sym: Symbol, name: Seq<char>, module: Seq<char>, t: TypeView) -> bool {
    &&& sym.name@ == name
    &&& sym.symbol_type == SymbolType::Function
    &&& sym.data_type@ == t
    &&& sym.scope_level == 0
    &&& sym.module_name@ == module
    &&& !sym.is_mut
    &&& !sym.is_array
    &&& sym.dimensions@.len() == 0
}

/// `after` is the global scope `before` with the function declared under
/// `module.name` where that key was free (an existing key is left as it
/// is).
pub open spec fn global_declared(
    before: Map<Seq<char>, Symbol>,
    after: Map<Seq<char>, Symbol>,
    name: Seq<char>,
    module: Seq<char>,
    t: TypeView,
) -> bool {
    let key = module + "."@ + name;
    if before.contains_key(key) {
        after == before
    } else {
        &&& after.contains_key(key)
        &&& after == before.insert(key, after[key])
        &&& function_symbol(after[key], name, module, t)
    }
}

/// The `impl` type a function works on: inside an `impl` block that
/// block's type; else, for a function whose first parameter is `self` with
/// a type named after a known struct, that struct.
pub open spec fn self_impl(v: AnalyzerView, node: Function) -> Option<Seq<char>> {
    match v.impl_struct {
        Some(s) => Some(s),
        None => match node.parameters {
            Some(ps) => if ps@.len() > 0 && ps@[0].name@ == "self"@ {
                match ps@[0].param_type {
                    Some(b) => match *b {
                        TypeNode::Basic(n) => if v.struct_fields.contains_key(n@) {
                            Some(n@)
                        } else {
                            None
                        },
                        TypeNode::Generic { base, .. } => if v.struct_fields.contains_key(base@) {
                            Some(base@)
                        } else {
                            None
                        },
                        _ => None,
                    },
                    None => None,
                }
            } else {
                None
            },
            None => None,
        },
    }
}

/// The state once a function's generic parameters are in scope, its `impl`
/// type set (see `self_impl`) and its return type read: the return type,
/// and the state with the unknown names in it reported.
pub open spec fn function_header(v: AnalyzerView, node: Function) -> (TypeView, AnalyzerView) {
    let g = combine_generics(v.generics, texts(node.generic_params@));
    let (t, unknown) = opt_ast_type(node.return_type, g, v.struct_fields.dom());
    (t, with_errors(AnalyzerView { impl_struct: self_impl(v, node), generics: g, ..v }, unknown_type_errors(unknown)))
}

/// A function of this return type may be declared under `key` of the
/// global scope `g`: the key is free, or already declares a function of
/// the same return type (declaring it again, as the signature pre-pass
/// did, changes nothing).
pub open spec fn declarable(g: Map<Seq<char>, Symbol>, key: Seq<char>, t: TypeView) -> bool {
    !g.contains_key(key) || (g[key].symbol_type == SymbolType::Function && g[key].data_type@ == t)
}

/// What a function body's end says of its value: it ends in a tail
/// expression (an expression statement written without a semicolon), an
/// `if` or a `match`.
pub open spec fn ends_with_value(body: Option<Block>, tail_expression: bool) -> bool {
    match body {
        Some(b) => b.statements@.len() > 0 && match b.statements@.last() {
            Statement::Expression(_) => tail_expression,
            Statement::If { .. } => true,
            Statement::Match(_) => true,
            _ => false,
        },
        None => false,
    }
}

/// The error for a function that can end without returning its value.
pub open spec fn missing_return_errors(v: AnalyzerView, node: Function, tail_expression: bool) -> Seq<Seq<char>> {
    if !texts(node.attributes@).contains("intrinsic"@) && v.function_return_type != TypeView::None_ && !v.has_return
        && !ends_with_value(node.body, tail_expression) {
        seq!["Function '"@ + v.function + "' must return a value of type "@ + type_text(v.function_return_type)]
    } else {
        Seq::empty()
    }
}

/// What entering a function replaced, for `leave_function` to restore.
pub struct FunctionFrame {
    pub function: String,
    pub return_type: DataType,
    pub has_return: bool,
    pub generics: Vec<String>,
}

impl SemanticAnalyzer {
    /// Enters a function definition: left out of a release build when marked
    /// `#[debug]` (`None`, nothing changes). Otherwise its generic parameters
    /// join those in scope, its `impl` type is set (see `self_impl`), its
    /// return type is read and it is declared in the module, and in its
    /// `impl` type's namespace when it has one. When the module already
    /// declares that key otherwise (see `declarable`) the error `Failed to
    /// declare function '<module>.<name>'` is reported, the `impl` type and
    /// generic parameters are restored and `None` returned. Else it becomes
    /// the current function (no return seen yet) and a scope is opened for
    /// its parameters and body; the frame returned holds what
    /// `leave_function` restores.
    pub fn enter_function(&mut self, node: &Function) -> (frame: Option<FunctionFrame>)
        requires
            with_global(old(self)@.scopes).len() < i32::MAX,
        ensures
            ({
                let v = old(self)@;
                let (t, w) = function_header(v, *node);
                let s = with_global(v.scopes);
                let key = v.module + "."@ + node.name@;
                let fs = final(self)@.scopes;
                if skipped_in(v.build_mode, node.attributes@) {
                    frame is None && final(self)@ == v
                } else if !declarable(s[0], key, t) {
                    &&& frame is None
                    &&& final(self)@ == (AnalyzerView {
                        scopes: s,
                        impl_struct: v.impl_struct,
                        generics: v.generics,
                        ..with_errors(w, seq!["Failed to declare function '"@ + key + "'"@])
                    })
                } else {
                    &&& frame matches Some(f) && {
                        &&& f.function@ == v.function
                        &&& f.return_type@ == v.function_return_type
                        &&& f.has_return == v.has_return
                        &&& texts(f.generics@) == v.generics
                    }
                    &&& final(self)@ == (AnalyzerView {
                        scopes: fs,
                        function: node.name@,
                        function_return_type: t,
                        has_return: false,
                        ..w
                    })
                    &&& fs.len() == s.len() + 1
                    &&& fs.last() == Map::<Seq<char>, Symbol>::empty()
                    &&& forall|i: int| 0 < i < s.len() ==> fs[i] == s[i]
                    &&& exists|mid: Map<Seq<char>, Symbol>|
                        #[trigger] global_declared(s[0], mid, node.name@, v.module, t) && match w.impl_struct {
                            Some(o) => global_declared(mid, fs[0], node.name@, o, t),
                            None => fs[0] == mid,
                        }
                }
            }),
    {
        let ghost v = self@;
        if self.build_mode == BuildMode::Release && names_contain(&node.attributes, "debug") {
            return None;
        }
        let prev_impl = match &self.current_impl_struct {
            Some(s) => Some(s.clone()),
            None => None,
        };
        if self.current_impl_struct.is_none() {
            match &node.parameters {
                Some(ps) => {
                    if ps.len() > 0 && str_eq(ps[0].name.as_str(), "self") {
                        match &ps[0].param_type {
                            Some(b) => {
                                let tn: Option<&String> = match &**b {
                                    TypeNode::Basic(n) => Some(n),
                                    TypeNode::Generic { base, .. } => Some(base),
                                    _ => None,
                                };
                                match tn {
                                    Some(n) => {
                                        if self.struct_fields.contains_key(n.as_str()) {
                                            self.current_impl_struct = Some(n.clone());
                                        }
                                    },
                                    None => {},
                                }
                            },
                            None => {},
                        }
                    }
                },
                None => {},
            }
        }
        assert(self@ == (AnalyzerView { impl_struct: self_impl(v, *node), ..v }));
        let prev_generics = clone_strings(&self.current_generic_params);
        let g = self.combined_generics(&node.generic_params);
        self.set_generics(g);
        let ghost v1 = self@;
        let t = match &node.return_type {
            Some(b) => self.get_data_type_from_ast(Some(&**b)),
            None => self.get_data_type_from_ast(None),
        };
        proof {
            let (tv, unknown) = opt_ast_type(node.return_type, v1.generics, v1.struct_fields.dom());
            if node.return_type is None {
                assert(unknown_type_errors(unknown) =~= Seq::<Seq<char>>::empty());
                lemma_with_errors_none(v1);
            }
            assert(self@ == function_header(v, *node).1);
            lemma_with_errors_frame(v1, unknown_type_errors(unknown));
        }
        let ghost w = self@;
        let ghost s = with_global(v.scopes);
        let accepted = self.env.declare_function(node.name.as_str(), &t, self.current_module.as_str());
        let ghost s1 = self.env@;
        let ok = if accepted {
            true
        } else {
            let mut key = self.current_module.clone();
            key.append(".");
            key.append(node.name.as_str());
            match self.env.lookup_global(key.as_str()) {
                Some(sym) => match sym.symbol_type {
                    SymbolType::Function => data_type_eq(&sym.data_type, &t),
                    _ => false,
                },
                None => false,
            }
        };
        let ghost key = v.module + "."@ + node.name@;
        assert(s1 == s || accepted);
        assert(ok == declarable(s[0], key, t@));
        if !ok {
            let mut msg = owned("Failed to declare function '");
            msg.append(self.current_module.as_str());
            msg.append(".");
            msg.append(node.name.as_str());
            msg.append("'");
            proof {
                lemma_with_errors_frame(w, seq![msg@]);
            }
            self.report(msg);
            self.current_impl_struct = prev_impl;
            self.set_generics(prev_generics);
            proof {
                assert(msg@ == "Failed to declare function '"@ + key + "'"@);
            }
            return None;
        }
        let ghost mid = s1[0];
        match &self.current_impl_struct {
            Some(o) => {
                let oc = o.clone();
                self.env.declare_function(node.name.as_str(), &t, oc.as_str());
            },
            None => {},
        }
        let ghost s2 = self.env@;
        let frame = FunctionFrame {
            function: self.current_function.clone(),
            return_type: self.current_function_return_type.clone(),
            has_return: self.has_return_statement,
            generics: prev_generics,
        };
        self.current_function = node.name.clone();
        self.current_function_return_type = t;
        self.has_return_statement = false;
        self.env.enter_scope();
        proof {
            assert(global_declared(s[0], mid, node.name@, v.module, t@));
        }
        Some(frame)
    }

    /// Leaves a function entered by `enter_function`, its body visited:
    /// unless it is marked `#[intrinsic]`, a function with a return type
    /// that has seen no `return` and does not end with a value (see
    /// `ends_with_value`; `tail_expression` tells whether the body's last
    /// statement is written without a semicolon) is reported; its scope is
    /// closed and the frame's current function, return type, return flag
    /// and generic parameters restored. The `impl` type stays as entering
    /// set it.
    pub fn leave_function(&mut self, node: &Function, frame: FunctionFrame, tail_expression: bool)
        ensures
            final(self)@ == (AnalyzerView {
                scopes: if old(self)@.scopes.len() > 0 {
                    old(self)@.scopes.drop_last()
                } else {
                    old(self)@.scopes
                },
                function: frame.function@,
                function_return_type: frame.return_type@,
                has_return: frame.has_return,
                generics: texts(frame.generics@),
                ..with_errors(old(self)@, missing_return_errors(old(self)@, *node, tail_expression))
            }),
    {
        let ghost v = self@;
        let ends = match &node.body {
            Some(b) => {
                if b.statements.len() > 0 {
                    match &b.statements[b.statements.len() - 1] {
                        Statement::Expression(_) => tail_expression,
                        Statement::If { .. } => true,
                        Statement::Match(_) => true,
                        _ => false,
                    }
                } else {
                    false
                }
            },
            None => false,
        };
        assert(ends == ends_with_value(node.body, tail_expression));
        let is_none = match &self.current_function_return_type {
            DataType::None_ => true,
            _ => false,
        };
        if !names_contain(&node.attributes, "intrinsic") && !is_none && !self.has_return_statement && !ends {
            let mut msg = owned("Function '");
            msg.append(self.current_function.as_str());
            msg.append("' must return a value of type ");
            let tt = data_type_to_string(self.current_function_return_type.clone());
            msg.append(tt.as_str());
            proof {
                lemma_with_errors_frame(v, seq![msg@]);
            }
            self.report(msg);
        } else {
            proof {
                lemma_with_errors_none(v);
            }
        }
        self.env.exit_scope();
        self.current_function = frame.function;
        self.current_function_return_type = frame.return_type;
        self.has_return_statement = frame.has_return;
        self.set_generics(frame.generics);
    }
}

// ==================== impl blocks ====================

/// The names of the methods an `impl` block provides in a build of this
/// mode, in order.
pub open spec fn impl_provided(mode: BuildMode, items: Seq<ImplItem>) -> Seq<Seq<char>>
    decreases items.len(),
{
    if items.len() == 0 {
        Seq::empty()
    } else {
        let p = impl_provided(mode, items.drop_last());
        let f = item_function(items.last());
        if skipped_in(mode, f.attributes@) {
            p
        } else {
            p.push(f.name@)
        }
    }
}

/// The errors of checking an `impl Trait for Type` block against a trait
/// already known: each method the trait requires that the block does not
/// provide. A trait not known yet is checked later (`validate_trait_impls`).
pub open spec fn impl_trait_errors(v: AnalyzerView, node: ImplBlock) -> Seq<Seq<char>> {
    match node.trait_name {
        Some(tn) => if v.traits.contains_key(tn@) {
            missing_methods(tn@, node.struct_name@, v.traits[tn@].methods, impl_provided(v.build_mode, node.items@))
        } else {
            Seq::empty()
        },
        None => Seq::empty(),
    }
}

proof fn lemma_impl_signatures_context(v: AnalyzerView, node: ImplBlock, items: Seq<ImplItem>, owner: Seq<char>)
    ensures
        impl_signatures(v, node, items, owner).0.impl_struct == v.impl_struct,
        impl_signatures(v, node, items, owner).0.generics == v.generics,
        impl_signatures(v, node, items, owner).0.module == v.module,
    decreases items.len(),
{
    if items.len() > 0 {
        lemma_impl_signatures_context(v, node, items.drop_last(), owner);
        let (w, keys) = impl_signatures(v, node, items.drop_last(), owner);
        let f = item_function(items.last());
        let x = AnalyzerView { impl_methods: w.impl_methods.push(method_key(node, f)), ..w };
        let g = combine_generics(w.generics, texts(f.generic_params@));
        lemma_with_errors_frame(x, unknown_type_errors(opt_ast_type(f.return_type, g, x.struct_fields.dom()).1));
    }
}

/// What entering an `impl` block replaced, for `leave_impl_block` to
/// restore.
pub struct ImplFrame {
    pub impl_struct: Option<String>,
    pub generics: Vec<String>,
}

impl SemanticAnalyzer {
    /// The names of the methods an `impl` block provides in this build.
    fn provided_methods(&self, node: &ImplBlock) -> (r: Vec<String>)
        ensures
            texts(r@) == impl_provided(self@.build_mode, node.items@),
    {
        let mut r: Vec<String> = Vec::new();
        let mut i: usize = 0;
        while i < node.items.len()
            invariant
                i <= node.items@.len(),
                texts(r@) == impl_provided(self@.build_mode, node.items@.take(i as int)),
            decreases node.items@.len() - i,
        {
            assert(node.items@.take(i + 1).drop_last() =~= node.items@.take(i as int));
            let f = match &node.items[i] {
                ImplItem::Method(f) => f,
                ImplItem::Convert(f) => f,
            };
            if !(self.build_mode == BuildMode::Release && names_contain(&f.attributes, "debug")) {
                r.push(f.name.clone());
                assert(texts(r@) =~= impl_provided(self@.build_mode, node.items@.take(i as int)).push(f.name@));
            }
            i = i + 1;
        }
        assert(node.items@.take(i as int) =~= node.items@);
        r
    }

    /// Reports each method the known trait requires that `provided` lacks.
    fn report_missing_methods(&mut self, trait_name: &str, struct_name: &str, provided: &Vec<String>)
        requires
            old(self)@.traits.contains_key(trait_name@),
        ensures
            final(self)@ == with_errors(
                old(self)@,
                missing_methods(trait_name@, struct_name@, old(self)@.traits[trait_name@].methods, texts(provided@)),
            ),
    {
        let ghost start = self@;
        let ghost methods = start.traits[trait_name@].methods;
        let mut required: Vec<String> = Vec::new();
        match self.trait_defs.get(trait_name) {
            Some(info) => {
                let mut j: usize = 0;
                while j < info.methods.len()
                    invariant
                        j <= info.methods@.len(),
                        required@.len() == j,
                        forall|k: int| 0 <= k < j ==> (#[trigger] required@[k])@ == info.methods@[k].name@,
                    decreases info.methods@.len() - j,
                {
                    required.push(info.methods[j].name.clone());
                    j = j + 1;
                }
            },
            None => {},
        }
        assert(required@.len() == methods.len());
        assert forall|k: int| 0 <= k < methods.len() implies #[trigger] required@[k]@ == methods[k].0 by {}
        let mut j: usize = 0;
        assert(methods.take(0) =~= Seq::<(Seq<char>, nat, bool)>::empty());
        proof {
            lemma_with_errors_none(start);
        }
        while j < required.len()
            invariant
                j <= required@.len(),
                required@.len() == methods.len(),
                forall|k: int| 0 <= k < methods.len() ==> #[trigger] required@[k]@ == methods[k].0,
                self@ == with_errors(start, missing_methods(trait_name@, struct_name@, methods.take(j as int), texts(provided@))),
            decreases required@.len() - j,
        {
            let ghost done = missing_methods(trait_name@, struct_name@, methods.take(j as int), texts(provided@));
            assert(methods.take(j + 1).drop_last() =~= methods.take(j as int));
            assert(methods.take(j + 1).last() == methods[j as int]);
            if !names_contain(provided, required[j].as_str()) {
                let mut msg = owned("Trait '");
                msg.append(trait_name);
                msg.append("' requires method '");
                msg.append(required[j].as_str());
                msg.append("', but it is missing in impl for '");
                msg.append(struct_name);
                msg.append("'");
                self.error(msg.as_str());
                proof {
                    lemma_with_errors_push(start, done, msg@);
                }
            }
            j = j + 1;
        }
        assert(methods.take(j as int) =~= methods);
    }

    /// Enters an `impl` block: an `impl Trait for Type` of a trait already
    /// known is checked for the methods it lacks (see `impl_trait_errors`);
    /// the block's type (up to any `<`) becomes the `impl` type and its
    /// generic parameters those in scope; and its methods' signatures are
    /// declared (see `impl_signatures`). The methods' bodies are then
    /// visited, each entered with `enter_function`, and `leave_impl_block`
    /// restores what the frame returned holds.
    pub fn visit_impl_block(&mut self, node: &ImplBlock) -> (frame: ImplFrame)
        ensures
            ({
                let v = old(self)@;
                let v1 = with_errors(v, impl_trait_errors(v, *node));
                let owner = bare_name(node.struct_name@);
                let inner = AnalyzerView { impl_struct: Some(owner), generics: texts(node.generic_params@), ..v1 };
                let (w, keys) = impl_signatures(inner, *node, node.items@, owner);
                &&& final(self)@ == (AnalyzerView { scopes: final(self)@.scopes, ..w })
                &&& scopes_kept(v.scopes, final(self)@.scopes)
                &&& declared_as(v.scopes, final(self)@.scopes, keys)
                &&& opt_text(frame.impl_struct) == v.impl_struct
                &&& texts(frame.generics@) == v.generics
            }),
    {
        let ghost v = self@;
        match &node.trait_name {
            Some(tn) => {
                if self.trait_defs.contains_key(tn.as_str()) {
                    let provided = self.provided_methods(node);
                    self.report_missing_methods(tn.as_str(), node.struct_name.as_str(), &provided);
                } else {
                    proof {
                        lemma_with_errors_none(v);
                    }
                }
            },
            None => {
                proof {
                    lemma_with_errors_none(v);
                }
            },
        }
        let ghost v1 = self@;
        assert(v1 == with_errors(v, impl_trait_errors(v, *node)));
        proof {
            lemma_with_errors_frame(v, impl_trait_errors(v, *node));
        }
        let frame = ImplFrame {
            impl_struct: match &self.current_impl_struct {
                Some(s) => Some(s.clone()),
                None => None,
            },
            generics: clone_strings(&self.current_generic_params),
        };
        self.declare_impl_signatures(node);
        let owner = owned(text_before(node.struct_name.as_str(), 60));
        self.current_impl_struct = Some(owner);
        self.set_generics(clone_strings(&node.generic_params));
        proof {
            let o = bare_name(node.struct_name@);
            let inner = AnalyzerView { impl_struct: Some(o), generics: texts(node.generic_params@), ..v1 };
            lemma_impl_signatures_context(inner, *node, node.items@, o);
            let (w, keys) = impl_signatures(inner, *node, node.items@, o);
            assert(self@.impl_struct == w.impl_struct);
            assert(self@.generics == w.generics);
            assert(self@ == (AnalyzerView { scopes: self@.scopes, ..w }));
        }
        frame
    }

    /// Leaves an `impl` block entered by `visit_impl_block`: the `impl` type
    /// and generic parameters it replaced are restored.
    pub fn leave_impl_block(&mut self, frame: ImplFrame)
        ensures
            final(self)@ == (AnalyzerView {
                impl_struct: opt_text(frame.impl_struct),
                generics: texts(frame.generics@),
                ..old(self)@
            }),
    {
        self.current_impl_struct = frame.impl_struct;
        self.set_generics(frame.generics);
    }
}

// ==================== declarations ====================

/// The size expressions of an array annotation, outermost dimension first
/// (a dimension written without a size has none).
pub open spec fn array_sizes(t: TypeNode) -> Seq<Expression>
    decreases t,
{
    match t {
        TypeNode::Array { element, size } => match size {
            Some(e) => seq![*e] + array_sizes(*element),
            None => array_sizes(*element),
        },
        _ => Seq::empty(),
    }
}

/// The element annotation inside all the dimensions of an array annotation.
pub open spec fn innermost_type(t: TypeNode) -> TypeNode
    decreases t,
{
    match t {
        TypeNode::Array { element, .. } => innermost_type(*element),
        _ => t,
    }
}

/// Where the run of decimal digits starting at `i` ends.
pub open spec fn digit_end(s: Seq<char>, i: int) -> int
    decreases s.len() - i,
{
    if 0 <= i < s.len() && '0' <= s[i] <= '9' {
        digit_end(s, i + 1)
    } else {
        i
    }
}

/// The value of a run of decimal digits.
pub open spec fn digits_value(s: Seq<char>) -> nat
    decreases s.len(),
{
    if s.len() == 0 {
        0
    } else {
        digits_value(s.drop_last()) * 10 + (s.last() as nat - '0' as nat) as nat
    }
}

/// The size a number literal gives a dimension: the value of its leading
/// digits, `i32::MAX` where it is larger.
pub open spec fn literal_size(text: Seq<char>) -> i32 {
    let n = digits_value(text.take(digit_end(text, 0)));
    if n > i32::MAX {
        i32::MAX
    } else {
        n as i32
    }
}

/// A dimension's size when it is a constant (a number literal).
pub open spec fn size_constant(e: Expression) -> Option<i32> {
    match e {
        Expression::NumberLiteral(text) => Some(literal_size(text@)),
        _ => None,
    }
}

/// Every dimension's size is a constant.
pub open spec fn all_constant(sizes: Seq<Expression>) -> bool {
    forall|i: int| 0 <= i < sizes.len() ==> (#[trigger] size_constant(sizes[i])) is Some
}

/// Every type is `int`.
pub open spec fn all_int(types: Seq<TypeView>) -> bool {
    forall|i: int| 0 <= i < types.len() ==> #[trigger] types[i] == TypeView::Int
}

/// The symbol of an array variable with constant dimensions.
pub open spec fn constant_array_symbol(sym: Symbol, name: Seq<char>, t: TypeView, level: int, is_mut: bool, sizes: Seq<Expression>) -> bool {
    &&& sym.name@ == name
    &&& sym.symbol_type == SymbolType::Variable
    &&& sym.data_type@ == t
    &&& sym.scope_level == level
    &&& sym.module_name@ == Seq::<char>::empty()
    &&& sym.is_mut == is_mut
    &&& sym.is_array
    &&& sym.dimensions@.len() == sizes.len()
    &&& forall|i: int| 0 <= i < sizes.len() ==> {
        &&& (#[trigger] sym.dimensions@[i]).is_constant
        &&& Some(sym.dimensions@[i].constant_size) == size_constant(sizes[i])
    }
}

/// How the initialization of a variable is named in a type mismatch.
pub open spec fn initialization_context(name: Seq<char>) -> Seq<char> {
    "variable '"@ + name + "' initialization"@
}

/// The annotation is an array type.
pub open spec fn is_array_type(t: Option<TypeNode>) -> bool {
    match t {
        Some(TypeNode::Array { .. }) => true,
        _ => false,
    }
}

/// The type annotation, if any.
pub open spec fn deref_type(t: Option<&TypeNode>) -> Option<TypeNode> {
    match t {
        Some(x) => Some(*x),
        None => None,
    }
}

proof fn lemma_digits_value_grows(s: Seq<char>, c: char)
    requires
        '0' <= c <= '9',
    ensures
        digits_value(s.push(c)) == digits_value(s) * 10 + (c as nat - '0' as nat),
{
    assert(s.push(c).drop_last() =~= s);
}

/// The size a number literal's text gives a dimension (see `literal_size`).
fn literal_size_exec(text: &String) -> (n: i32)
    ensures
        n == literal_size(text@),
{
    let cs = str_chars(text.as_str());
    let mut acc: u64 = 0;
    let mut i: usize = 0;
    while i < cs.len() && '0' <= cs[i] && cs[i] <= '9'
        invariant
            cs@ == text@,
            i <= cs@.len(),
            digit_end(cs@, 0) == digit_end(cs@, i as int),
            (acc <= i32::MAX && acc == digits_value(cs@.take(i as int))) || (acc > i32::MAX && acc <= 21474836479
                && digits_value(cs@.take(i as int)) > i32::MAX),
        decreases cs@.len() - i,
    {
        let c = cs[i];
        assert(digit_end(cs@, i as int) == digit_end(cs@, i + 1));
        proof {
            lemma_digits_value_grows(cs@.take(i as int), c);
            assert(cs@.take(i + 1) =~= cs@.take(i as int).push(c));
        }
        if acc <= 2147483647 {
            let d = (c as u32 - '0' as u32) as u64;
            acc = acc * 10 + d;
        }
        i = i + 1;
    }
    assert(digit_end(cs@, i as int) == i as int);
    if acc > 2147483647 {
        2147483647
    } else {
        acc as i32
    }
}

/// The sizes of an array annotation's dimensions, each when constant.
fn dimension_constants(node: &TypeNode) -> (r: Vec<Option<i32>>)
    ensures
        r@.len() == array_sizes(*node).len(),
        forall|i: int| 0 <= i < r@.len() ==> #[trigger] r@[i] == size_constant(array_sizes(*node)[i]),
    decreases node,
{
    match node {
        TypeNode::Array { element, size } => {
            let rest = dimension_constants(&**element);
            match size {
                Some(e) => {
                    let c = match &**e {
                        Expression::NumberLiteral(text) => Some(literal_size_exec(text)),
                        _ => None,
                    };
                    let mut r: Vec<Option<i32>> = Vec::new();
                    r.push(c);
                    let mut j: usize = 0;
                    while j < rest.len()
                        invariant
                            j <= rest@.len(),
                            r@.len() == j + 1,
                            r@[0] == c,
                            forall|k: int| 0 <= k < j ==> r@[k + 1] == rest@[k],
                        decreases rest@.len() - j,
                    {
                        r.push(rest[j]);
                        j = j + 1;
                    }
                    proof {
                        let sz = array_sizes(*node);
                        assert(sz == seq![**e] + array_sizes(**element));
                        assert forall|i: int| 0 <= i < r@.len() implies #[trigger] r@[i] == size_constant(sz[i]) by {
                            if i > 0 {
                                assert(r@[(i - 1) + 1] == rest@[i - 1]);
                            }
                        }
                    }
                    r
                },
                None => rest,
            }
        },
        _ => Vec::new(),
    }
}

/// The element annotation inside all of an array annotation's dimensions.
fn innermost_node(node: &TypeNode) -> (r: &TypeNode)
    ensures
        *r == innermost_type(*node),
    decreases node,
{
    match node {
        TypeNode::Array { element, .. } => innermost_node(&**element),
        _ => node,
    }
}

impl SemanticAnalyzer {
    /// Declares a variable (`keyword` `var` makes it mutable) in the
    /// innermost scope.
    ///
    /// With an array annotation, `size_types` are the types of its size
    /// expressions, visited in order: one that is not `int` is reported as
    /// `Array size must be integer` and nothing is declared. Else the
    /// element type is read, and the name declared as an array of constant
    /// dimensions when every size is a number literal (see
    /// `constant_array_symbol`), else as a variable of the element type; an
    /// initializer is not looked at.
    ///
    /// Otherwise the annotation's type is read (unknown names reported).
    /// Without one the variable takes the type of its initializer, which has
    /// been visited (its type is on top of the stack), or `none`. With one
    /// the variable has that type, and a visited initializer's type must be
    /// compatible with it (`Type mismatch in variable '<name>'
    /// initialization: ...`).
    pub fn visit_declaration(
        &mut self,
        keyword: &str,
        name: &str,
        var_type: Option<&TypeNode>,
        initializer: Option<&Expression>,
        size_types: &Vec<DataType>,
    )
        requires
            with_global(old(self)@.scopes).len() <= i32::MAX,
            is_array_type(deref_type(var_type)) ==> size_types@.len() == array_sizes(*var_type->0).len(),
        ensures
            ({
                let v = old(self)@;
                let is_mut = keyword@ == "var"@;
                let s = with_global(v.scopes);
                let last = s.len() - 1;
                let fs = final(self)@.scopes;
                let fresh = !s[last].contains_key(name@);
                if is_array_type(deref_type(var_type)) {
                    let tp = var_type->0;
                    let sizes = array_sizes(*tp);
                    if !all_int(types_of(size_types@)) {
                        final(self)@ == with_errors(v, seq!["Array size must be integer"@])
                    } else {
                        let (et, unknown) = ast_type(innermost_type(*tp), v.generics, v.struct_fields.dom());
                        &&& final(self)@ == (AnalyzerView { scopes: fs, ..with_errors(v, unknown_type_errors(unknown)) })
                        &&& declared_in(s, fs, last, name@, fresh)
                        &&& fresh ==> if all_constant(sizes) {
                            constant_array_symbol(fs[last][name@], name@, et, last, is_mut, sizes)
                        } else {
                            is_variable_symbol(fs[last][name@], name@, et, last, is_mut)
                        }
                    }
                } else {
                    let (t, unknown) = match deref_type(var_type) {
                        Some(tp) => ast_type(tp, v.generics, v.struct_fields.dom()),
                        None => (TypeView::None_, Seq::empty()),
                    };
                    let w = with_errors(v, unknown_type_errors(unknown));
                    let cur = current_type(v);
                    let vt = if t == TypeView::None_ && initializer is Some {
                        cur
                    } else {
                        t
                    };
                    &&& declared_in(s, fs, last, name@, fresh)
                    &&& fresh ==> is_variable_symbol(fs[last][name@], name@, vt, last, is_mut)
                    &&& final(self)@ == (AnalyzerView {
                        scopes: fs,
                        ..if t != TypeView::None_ && initializer is Some && !compatible(t, cur) {
                            with_errors(
                                w,
                                seq![
                                    "Type mismatch in "@ + initialization_context(name@) + ": expected "@ + type_text(t)
                                        + ", got "@ + type_text(cur)
                                ],
                            )
                        } else {
                            w
                        }
                    })
                }
            }),
    {
        let ghost v = self@;
        let is_mut = str_eq(keyword, "var");
        let array_type: Option<&TypeNode> = match var_type {
            Some(t) => match t {
                TypeNode::Array { .. } => Some(t),
                _ => None,
            },
            None => None,
        };
        if let Some(tp) = array_type {
            let mut i: usize = 0;
            while i < size_types.len()
                invariant
                    i <= size_types@.len(),
                    self@ == v,
                    v == old(self)@,
                    is_array_type(deref_type(var_type)),
                    forall|k: int| 0 <= k < i ==> #[trigger] types_of(size_types@)[k] == TypeView::Int,
                decreases size_types@.len() - i,
            {
                match &size_types[i] {
                    DataType::Int => {},
                    _ => {
                        proof {
                            assert(types_of(size_types@)[i as int] != TypeView::Int);
                            lemma_with_errors_frame(v, seq!["Array size must be integer"@]);
                        }
                        self.report(owned("Array size must be integer"));
                        return;
                    },
                }
                i = i + 1;
            }
            assert(all_int(types_of(size_types@)));
            let inner = innermost_node(tp);
            let et = self.get_data_type_from_ast(Some(inner));
            let ghost w = self@;
            proof {
                let (tv, unknown) = ast_type(innermost_type(*tp), v.generics, v.struct_fields.dom());
                lemma_with_errors_frame(v, unknown_type_errors(unknown));
            }
            let consts = dimension_constants(tp);
            let mut sizes: Vec<i32> = Vec::new();
            let mut constant = true;
            let mut j: usize = 0;
            while j < consts.len()
                invariant
                    j <= consts@.len(),
                    sizes@.len() == j,
                    constant ==> forall|k: int| 0 <= k < j ==> consts@[k] == Some(#[trigger] sizes@[k]),
                    !constant ==> exists|k: int| 0 <= k < j && (#[trigger] consts@[k]) is None,
                decreases consts@.len() - j,
            {
                match consts[j] {
                    Some(n) => sizes.push(n),
                    None => {
                        constant = false;
                        sizes.push(0);
                    },
                }
                j = j + 1;
            }
            let ghost sz = array_sizes(*tp);
            assert(constant == all_constant(sz)) by {
                if !constant {
                    let k = choose|k: int| 0 <= k < consts@.len() && (#[trigger] consts@[k]) is None;
                    assert(size_constant(sz[k]) is None);
                } else {
                    assert forall|k: int| 0 <= k < sz.len() implies (#[trigger] size_constant(sz[k])) is Some by {
                        assert(consts@[k] == Some(sizes@[k]));
                    }
                }
            }
            assert(constant ==> forall|k: int| 0 <= k < sz.len() ==> Some(#[trigger] sizes@[k]) == size_constant(sz[k]));
            if constant {
                self.env.declare_array_constant(name, &et, sizes.as_slice(), is_mut);
            } else {
                self.env.declare_variable(name, &et, is_mut);
            }
            assert(self@ == (AnalyzerView { scopes: self@.scopes, ..w }));
            return;
        }
        let t = self.get_data_type_from_ast(var_type);
        let ghost w = self@;
        proof {
            match var_type {
                Some(tp) => {
                    let (tv, unknown) = ast_type(*tp, v.generics, v.struct_fields.dom());
                    lemma_with_errors_frame(v, unknown_type_errors(unknown));
                },
                None => {
                    assert(unknown_type_errors(Seq::empty()) =~= Seq::<Seq<char>>::empty());
                    lemma_with_errors_none(v);
                },
            }
        }
        let no_type = match t {
            DataType::None_ => true,
            _ => false,
        };
        if no_type {
            let dt = if initializer.is_some() {
                self.get_current_type()
            } else {
                DataType::None_
            };
            self.env.declare_variable(name, &dt, is_mut);
            assert(self@ == (AnalyzerView { scopes: self@.scopes, ..w }));
            return;
        }
        self.env.declare_variable(name, &t, is_mut);
        let ghost w2 = self@;
        assert(w2 == (AnalyzerView { scopes: w2.scopes, ..w }));
        if initializer.is_some() {
            let cur = self.get_current_type();
            let mut context = owned("variable '");
            context.append(name);
            context.append("' initialization");
            let tc = data_type_clone(&t);
            let ghost ts = t@;
            let ghost cs = cur@;
            let ok = self.check_type_compatibility(tc, cur, context.as_str());
            proof {
                if !ok {
                    let m = "Type mismatch in "@ + context@ + ": expected "@ + type_text(ts) + ", got "@ + type_text(cs);
                    assert(context@ == initialization_context(name@));
                    lemma_with_error_one(w2, m);
                    lemma_with_error_one(w, m);
                    lemma_with_errors_frame(w2, seq![m]);
                    lemma_with_errors_frame(w, seq![m]);
                    lemma_with_errors_same(w2, w, seq![m]);
                }
            }
        }
    }
}

impl SemanticAnalyzer {
    /// Types a number literal by how it is written: `float` with a
    /// fractional part (`3.0`), else `int`.
    pub fn visit_number_literal(&mut self, text: &str)
        ensures
            final(self)@ == (AnalyzerView {
                types: old(self)@.types.push(
                    if text@.contains('.') {
                        TypeView::Float
                    } else {
                        TypeView::Int
                    },
                ),
                ..old(self)@
            }),
    {
        let cs = str_chars(text);
        let mut i: usize = 0;
        while i < cs.len()
            invariant
                cs@ == text@,
                i <= cs@.len(),
                self@ == old(self)@,
                forall|k: int| 0 <= k < i ==> cs@[k] != '.',
            decreases cs@.len() - i,
        {
            if cs[i] == '.' {
                assert(text@[i as int] == '.');
                self.push_type(DataType::Float);
                return;
            }
            i = i + 1;
        }
        self.push_type(DataType::Int);
    }
}

// ==================== extern blocks ====================

/// The error for an `extern` block without a header.
pub open spec fn missing_header_error() -> Seq<char> {
    "extern \"C\" block requires a #[header(\"path/to/header.h\")] attribute specifying the C header that provides these functions"@
}

/// The libraries to link once an `extern` block naming `library` is seen:
/// a library other than the ABI name `C` is added when it is new.
pub open spec fn libs_with(libs: Seq<Seq<char>>, library: Option<String>) -> Seq<Seq<char>> {
    match library {
        Some(l) => if l@ != "C"@ && !libs.contains(l@) {
            libs.push(l@)
        } else {
            libs
        },
        None => libs,
    }
}

/// Checking and declaring the functions of an `extern` block in order,
/// against the text of its header found at `path`: a function the header
/// does not declare is reported, then its signature is read and declared
/// in the module (see `extern_signatures`).
pub open spec fn extern_checked(v: AnalyzerView, fs: Seq<Function>, header: Seq<u8>, path: Seq<char>) -> AnalyzerView
    decreases fs.len(),
{
    if fs.len() == 0 {
        v
    } else {
        let w = extern_checked(v, fs.drop_last(), header, path);
        let f = fs.last();
        let w1 = if header_declares(header, encode_utf8(f.name@)) {
            w
        } else {
            with_errors(w, seq!["Function '"@ + f.name@ + "' is not declared in header '"@ + path + "'"@])
        };
        signature_read(w1, f, w1.generics)
    }
}

proof fn lemma_extern_checked_frame(v: AnalyzerView, fs: Seq<Function>, header: Seq<u8>, path: Seq<char>)
    ensures
        extern_checked(v, fs, header, path).generics == v.generics,
        extern_checked(v, fs, header, path).module == v.module,
        extern_checked(v, fs, header, path).struct_fields == v.struct_fields,
    decreases fs.len(),
{
    if fs.len() > 0 {
        lemma_extern_checked_frame(v, fs.drop_last(), header, path);
        let w = extern_checked(v, fs.drop_last(), header, path);
        let f = fs.last();
        let msg = "Function '"@ + f.name@ + "' is not declared in header '"@ + path + "'"@;
        lemma_with_errors_frame(w, seq![msg]);
        let w1 = if header_declares(header, encode_utf8(f.name@)) {
            w
        } else {
            with_errors(w, seq![msg])
        };
        lemma_with_errors_frame(w1, unknown_type_errors(opt_ast_type(f.return_type, w1.generics, w1.struct_fields.dom()).1));
    }
}

impl SemanticAnalyzer {
    /// Checks an `extern "C"` block and declares its functions, `header`
    /// being the outcome of reading the C header it names (its text, or why
    /// it could not be read). A block without a header is an error, and so
    /// is a header that could not be read (`Cannot read C header '<path>'
    /// specified by #[header]: <why>`); either way nothing else happens.
    /// Otherwise the library it names is recorded (see `libs_with`) and each
    /// function is checked against the header and declared in the module
    /// (see `extern_checked`). Each function is then visited as a function
    /// definition (`enter_function`, `leave_function`).
    pub fn visit_extern_block(&mut self, node: &ExternBlock, header: Result<String, String>)
        ensures
            ({
                let v = old(self)@;
                match node.header {
                    None => final(self)@ == with_errors(v, seq![missing_header_error()]),
                    Some(path) => match header {
                        Err(e) => final(self)@ == with_errors(
                            v,
                            seq!["Cannot read C header '"@ + path@ + "' specified by #[header]: "@ + e@],
                        ),
                        Ok(text) => {
                            let w = extern_checked(
                                AnalyzerView { extern_libs: libs_with(v.extern_libs, node.library), ..v },
                                node.functions@,
                                encode_utf8(text@),
                                path@,
                            );
                            &&& final(self)@ == (AnalyzerView { scopes: final(self)@.scopes, ..w })
                            &&& scopes_kept(v.scopes, final(self)@.scopes)
                            &&& forall|i: int|
                                0 <= i < node.functions@.len() ==> final(self)@.scopes.len() > 0
                                    && final(self)@.scopes[0].contains_key(
                                    v.module + "."@ + (#[trigger] node.functions@[i]).name@,
                                )
                        },
                    },
                }
            }),
    {
        let ghost v = self@;
        let path = match &node.header {
            Some(p) => p,
            None => {
                proof {
                    lemma_with_error_one(v, missing_header_error());
                }
                self.error("extern \"C\" block requires a #[header(\"path/to/header.h\")] attribute specifying the C header that provides these functions");
                return;
            },
        };
        let text = match header {
            Ok(t) => t,
            Err(e) => {
                let mut msg = owned("Cannot read C header '");
                msg.append(path.as_str());
                msg.append("' specified by #[header]: ");
                msg.append(e.as_str());
                self.report(msg);
                return;
            },
        };
        match &node.library {
            Some(lib) => {
                if !str_eq(lib.as_str(), "C") && !names_contain(&self.extern_libs, lib.as_str()) {
                    self.extern_libs.push(lib.clone());
                    assert(texts(self.extern_libs@) =~= texts(old(self).extern_libs@).push(lib@));
                }
            },
            None => {},
        }
        let ghost v1 = self@;
        assert(v1 == AnalyzerView { extern_libs: libs_with(v.extern_libs, node.library), ..v });
        proof {
            lemma_scopes_kept_refl(v.scopes);
        }
        let mut i: usize = 0;
        assert(node.functions@.take(0) =~= Seq::<Function>::empty());
        while i < node.functions.len()
            invariant
                i <= node.functions@.len(),
                v1.module == v.module,
                v1.scopes == v.scopes,
                self@ == (AnalyzerView {
                    scopes: self@.scopes,
                    ..extern_checked(v1, node.functions@.take(i as int), encode_utf8(text@), path@)
                }),
                scopes_kept(v.scopes, self@.scopes),
                forall|k: int|
                    0 <= k < i ==> self@.scopes.len() > 0 && self@.scopes[0].contains_key(
                        v.module + "."@ + (#[trigger] node.functions@[k]).name@,
                    ),
            decreases node.functions@.len() - i,
        {
            let ghost before = extern_checked(v1, node.functions@.take(i as int), encode_utf8(text@), path@);
            assert(node.functions@.take(i + 1).drop_last() =~= node.functions@.take(i as int));
            assert(node.functions@.take(i + 1).last() == node.functions@[i as int]);
            let f = &node.functions[i];
            proof {
                lemma_extern_checked_frame(v1, node.functions@.take(i as int), encode_utf8(text@), path@);
            }
            let ghost s0 = self@.scopes;
            if !SemanticAnalyzer::header_declares_function(text.as_str(), f.name.as_str()) {
                let mut msg = owned("Function '");
                msg.append(f.name.as_str());
                msg.append("' is not declared in header '");
                msg.append(path.as_str());
                msg.append("'");
                proof {
                    lemma_with_errors_scopes(self@, before, seq![msg@]);
                }
                self.report(msg);
            }
            let ghost w1 = if header_declares(encode_utf8(text@), encode_utf8(f.name@)) {
                before
            } else {
                with_errors(before, seq!["Function '"@ + f.name@ + "' is not declared in header '"@ + path@ + "'"@])
            };
            assert(self@ == (AnalyzerView { scopes: s0, ..w1 }));
            let g = clone_strings(&self.current_generic_params);
            let ghost pre = self@;
            self.declare_signature(f, g, None);
            proof {
                lemma_signature_read_scopes(pre, w1, *f, texts(g@));
                lemma_scopes_kept_trans(v.scopes, s0, self@.scopes);
                assert forall|k: int| 0 <= k < i + 1 implies self@.scopes.len() > 0 && self@.scopes[0].contains_key(
                    v.module + "."@ + (#[trigger] node.functions@[k]).name@,
                ) by {
                    if k < i {
                        lemma_scopes_kept_key(s0, self@.scopes, v.module + "."@ + node.functions@[k].name@);
                    } else {
                        lemma_with_errors_frame(
                            before,
                            seq!["Function '"@ + f.name@ + "' is not declared in header '"@ + path@ + "'"@],
                        );
                        assert(pre.module == v.module);
                    }
                }
            }
            i = i + 1;
        }
        assert(node.functions@.take(i as int) =~= node.functions@);
    }
}

// ==================== match expressions and lambdas ====================

/// Two arm types clash: neither may stand for the other, and neither is
/// unknown.
pub open spec fn arms_clash(x: TypeView, t: TypeView) -> bool {
    !compatible(x, t) && !compatible(t, x) && t != TypeView::Unknown && x != TypeView::Unknown
}

/// Scanning the types of a match's arm bodies (`None` for an arm without a
/// body) in order: the first body's type, and an error for each later body
/// whose type clashes with it.
pub open spec fn arms_scan(arms: Seq<Option<TypeView>>) -> (Option<TypeView>, Seq<Seq<char>>)
    decreases arms.len(),
{
    if arms.len() == 0 {
        (None, Seq::empty())
    } else {
        let (r, e) = arms_scan(arms.drop_last());
        match arms.last() {
            None => (r, e),
            Some(t) => match r {
                None => (Some(t), e),
                Some(x) => if arms_clash(x, t) {
                    (r, e.push("Match arms have incompatible types"@))
                } else {
                    (r, e)
                },
            },
        }
    }
}

/// The type of a match: that of its first arm body, `none` without one.
pub open spec fn match_type(arms: Seq<Option<TypeView>>) -> TypeView {
    match arms_scan(arms).0 {
        Some(t) => t,
        None => TypeView::None_,
    }
}

/// The views of optional types.
pub open spec fn opt_types(v: Seq<Option<DataType>>) -> Seq<Option<TypeView>> {
    v.map_values(|o: Option<DataType>| match o {
        Some(d) => Some(d@),
        None => None,
    })
}

impl SemanticAnalyzer {
    /// Enters an arm of a match whose scrutinee has type `scrutinee_type`:
    /// a variable pattern opens a scope binding its name, immutably, to
    /// that type; another pattern changes nothing.
    pub fn enter_match_arm(&mut self, pattern: &MatchPattern, scrutinee_type: &DataType)
        requires
            old(self)@.scopes.len() < i32::MAX,
        ensures
            match pattern {
                MatchPattern::Variable(n) => {
                    let s = old(self)@.scopes;
                    let fs = final(self)@.scopes;
                    &&& final(self)@ == (AnalyzerView { scopes: fs, ..old(self)@ })
                    &&& fs.len() == s.len() + 1
                    &&& forall|i: int| 0 <= i < s.len() ==> fs[i] == s[i]
                    &&& fs.last().dom() == set![n@]
                    &&& is_variable_symbol(fs.last()[n@], n@, scrutinee_type@, s.len() as int, false)
                },
                _ => final(self)@ == old(self)@,
            },
    {
        match pattern {
            MatchPattern::Variable(n) => {
                let ghost s = self@.scopes;
                self.env.enter_scope();
                assert(with_global(self.env@) == self.env@);
                self.env.declare_variable(n.as_str(), scrutinee_type, false);
                proof {
                    let fs = self.env@;
                    assert(fs.last().dom() =~= set![n@]);
                }
            },
            _ => {},
        }
    }

    /// Leaves an arm entered by `enter_match_arm`: a variable pattern's
    /// scope is closed.
    pub fn leave_match_arm(&mut self, pattern: &MatchPattern)
        ensures
            match pattern {
                MatchPattern::Variable(_) => final(self)@ == (AnalyzerView {
                    scopes: if old(self)@.scopes.len() > 0 {
                        old(self)@.scopes.drop_last()
                    } else {
                        old(self)@.scopes
                    },
                    ..old(self)@
                }),
                _ => final(self)@ == old(self)@,
            },
    {
        match pattern {
            MatchPattern::Variable(_) => self.env.exit_scope(),
            _ => {},
        }
    }

    /// Types a match whose scrutinee and arms have been visited,
    /// `arm_types` being the types of the arm bodies in order (`None` for an
    /// arm without a body): each body whose type clashes with the first is
    /// reported, and the match's type (see `match_type`) is pushed.
    pub fn visit_match_expression(&mut self, arm_types: &Vec<Option<DataType>>)
        ensures
            final(self)@ == typed_with(old(self)@, match_type(opt_types(arm_types@)), arms_scan(opt_types(arm_types@)).1),
    {
        let ghost v = self@;
        let ghost arms = opt_types(arm_types@);
        let mut result: Option<DataType> = None;
        let mut i: usize = 0;
        assert(arms.take(0) =~= Seq::<Option<TypeView>>::empty());
        proof {
            lemma_with_errors_none(v);
        }
        while i < arm_types.len()
            invariant
                i <= arm_types@.len(),
                arms == opt_types(arm_types@),
                ({
                    let (r, e) = arms_scan(arms.take(i as int));
                    &&& self@ == with_errors(v, e)
                    &&& match result {
                        Some(d) => r == Some(d@),
                        None => r is None,
                    }
                }),
            decreases arm_types@.len() - i,
        {
            let ghost before = arms_scan(arms.take(i as int));
            assert(arms.take(i + 1).drop_last() =~= arms.take(i as int));
            assert(arms.take(i + 1).last() == arms[i as int]);
            match &arm_types[i] {
                None => {},
                Some(t) => {
                    match &result {
                        None => {
                            result = Some(data_type_clone(t));
                        },
                        Some(x) => {
                            let clash = !Environment::is_type_compatible(x, t) && !Environment::is_type_compatible(t, x)
                                && !data_type_eq(t, &DataType::Unknown) && !data_type_eq(x, &DataType::Unknown);
                            if clash {
                                proof {
                                    lemma_with_errors_push(v, before.1, "Match arms have incompatible types"@);
                                }
                                self.error("Match arms have incompatible types");
                            }
                        },
                    }
                },
            }
            i = i + 1;
        }
        assert(arms.take(i as int) =~= arms);
        let ghost w = self@;
        proof {
            lemma_with_errors_frame(v, arms_scan(arms).1);
        }
        let t = match result {
            Some(d) => d,
            None => DataType::None_,
        };
        self.push_type(t);
    }

    /// Enters a lambda: its generic parameters join those in scope, its
    /// return type is read (unknown names reported), and it becomes the
    /// current function, named `__lambda`, with no return seen yet, in a new
    /// scope for its parameters (each visited with `visit_parameter`) and
    /// body. The frame returned holds what `leave_lambda` restores.
    pub fn enter_lambda(&mut self, generic_params: &Vec<String>, return_type: Option<&TypeNode>) -> (frame: FunctionFrame)
        ensures
            ({
                let v = old(self)@;
                let g = combine_generics(v.generics, texts(generic_params@));
                let (t, unknown) = match return_type {
                    Some(tp) => ast_type(*tp, g, v.struct_fields.dom()),
                    None => (TypeView::None_, Seq::empty()),
                };
                &&& final(self)@ == (AnalyzerView {
                    scopes: v.scopes.push(Map::empty()),
                    function: "__lambda"@,
                    function_return_type: t,
                    has_return: false,
                    ..with_errors(AnalyzerView { generics: g, ..v }, unknown_type_errors(unknown))
                })
                &&& frame.function@ == v.function
                &&& frame.return_type@ == v.function_return_type
                &&& frame.has_return == v.has_return
                &&& texts(frame.generics@) == v.generics
            }),
    {
        let ghost v = self@;
        let prev_generics = clone_strings(&self.current_generic_params);
        let g = self.combined_generics(generic_params);
        self.set_generics(g);
        let ghost v1 = self@;
        let t = self.get_data_type_from_ast(return_type);
        proof {
            match return_type {
                Some(tp) => {
                    let (tv, unknown) = ast_type(*tp, v1.generics, v1.struct_fields.dom());
                    lemma_with_errors_frame(v1, unknown_type_errors(unknown));
                },
                None => {
                    assert(unknown_type_errors(Seq::empty()) =~= Seq::<Seq<char>>::empty());
                    lemma_with_errors_none(v1);
                },
            }
        }
        let frame = FunctionFrame {
            function: self.current_function.clone(),
            return_type: self.current_function_return_type.clone(),
            has_return: self.has_return_statement,
            generics: prev_generics,
        };
        self.current_function = owned("__lambda");
        self.current_function_return_type = t;
        self.has_return_statement = false;
        self.env.enter_scope();
        frame
    }

    /// Leaves a lambda entered by `enter_lambda`, its body visited: its
    /// scope is closed, the frame's current function, return type, return
    /// flag and generic parameters are restored, and the lambda's return
    /// type is pushed as the type of the expression.
    pub fn leave_lambda(&mut self, frame: FunctionFrame)
        ensures
            final(self)@ == (AnalyzerView {
                scopes: if old(self)@.scopes.len() > 0 {
                    old(self)@.scopes.drop_last()
                } else {
                    old(self)@.scopes
                },
                function: frame.function@,
                function_return_type: frame.return_type@,
                has_return: frame.has_return,
                generics: texts(frame.generics@),
                types: old(self)@.types.push(old(self)@.function_return_type),
                ..old(self)@
            }),
    {
        self.env.exit_scope();
        let t = data_type_clone(&self.current_function_return_type);
        self.current_function = frame.function;
        self.current_function_return_type = frame.return_type;
        self.has_return_statement = frame.has_return;
        self.set_generics(frame.generics);
        self.push_type(t);
    }
}

// ==================== loading modules ====================

/// A module states the names it exports (it has an `export` statement).
pub open spec fn has_export(stmts: Seq<Statement>) -> bool {
    exists|i: int| 0 <= i < stmts.len() && #[trigger] stmts[i] is Export
}

/// The name of a top-level definition marked `#[no_export]`, if it is one.
pub open spec fn no_export_name(st: Statement) -> Option<Seq<char>> {
    match st {
        Statement::Function(f) => if texts(f.attributes@).contains("no_export"@) {
            Some(f.name@)
        } else {
            None
        },
        Statement::StructDefinition(d) => if texts(d.attributes@).contains("no_export"@) {
            Some(d.name@)
        } else {
            None
        },
        Statement::TraitDefinition(d) => if texts(d.attributes@).contains("no_export"@) {
            Some(d.name@)
        } else {
            None
        },
        Statement::EnumDefinition(d) => if texts(d.attributes@).contains("no_export"@) {
            Some(d.name@)
        } else {
            None
        },
        _ => None,
    }
}

/// The names of a module's definitions marked `#[no_export]`, in order.
pub open spec fn no_export_names(stmts: Seq<Statement>) -> Seq<Seq<char>>
    decreases stmts.len(),
{
    if stmts.len() == 0 {
        Seq::empty()
    } else {
        match no_export_name(stmts.last()) {
            Some(n) => no_export_names(stmts.drop_last()).push(n),
            None => no_export_names(stmts.drop_last()),
        }
    }
}

/// The module an `import` or `from ... import` statement loads.
pub open spec fn import_name(st: Statement) -> Option<Seq<char>> {
    match st {
        Statement::Import { module, .. } => Some(module@),
        Statement::FromImport { module, .. } => Some(module@),
        _ => None,
    }
}

/// Names copied from other modules under `keys` (see `Decl::Copied`).
pub open spec fn copied_decls(keys: Seq<Seq<char>>) -> Map<Seq<char>, Decl> {
    Map::new(|k: Seq<char>| keys.contains(k), |k: Seq<char>| Decl::Copied)
}

/// Module names declared under `names`.
pub open spec fn module_decls(names: Seq<Seq<char>>) -> Map<Seq<char>, Decl> {
    Map::new(|k: Seq<char>| names.contains(k), |k: Seq<char>| Decl::Module)
}

/// The keys a `from ... import` declares in `module`: each member under its
/// alias, or its own name.
pub open spec fn from_import_keys(module: Seq<char>, members: Seq<(String, Option<String>)>) -> Seq<Seq<char>> {
    members.map_values(
        |m: (String, Option<String>)|
            module + "."@ + match m.1 {
                Some(a) => a@,
                None => m.0@,
            },
    )
}

proof fn lemma_last_dot_range(p: Seq<char>)
    ensures
        -1 <= last_dot(p) < p.len(),
        last_dot(p) >= 0 ==> p[last_dot(p)] == '.',
    decreases p.len(),
{
    if p.len() > 0 && p.last() != '.' {
        lemma_last_dot_range(p.drop_last());
    }
}

/// The name an `export` entry declares: what follows its last `.`.
pub open spec fn export_short(n: Seq<char>) -> Seq<char> {
    if last_dot(n) < 0 {
        n
    } else {
        n.skip(last_dot(n) + 1)
    }
}

/// The keys an `export` list declares in `module`.
pub open spec fn export_keys(module: Seq<char>, names: Seq<String>) -> Seq<Seq<char>> {
    names.map_values(|n: String| module + "."@ + export_short(n@))
}

proof fn lemma_take_contains<A>(s: Seq<A>, i: int, x: A)
    requires
        0 <= i < s.len(),
    ensures
        s.take(i + 1).contains(x) <==> (s.take(i).contains(x) || x == s[i]),
{
    if s.take(i).contains(x) {
        let j = choose|j: int| 0 <= j < s.take(i).len() && #[trigger] s.take(i)[j] == x;
        assert(s.take(i + 1)[j] == x);
    }
    if x == s[i] {
        assert(s.take(i + 1)[i] == x);
    }
    if s.take(i + 1).contains(x) {
        let j = choose|j: int| 0 <= j < s.take(i + 1).len() && #[trigger] s.take(i + 1)[j] == x;
        if j < i {
            assert(s.take(i)[j] == x);
        }
    }
}

/// Replacing declarations by copied names, or adding copied names, keeps
/// the declarations true of the scopes.
proof fn lemma_declared_as_loosen(
    a: Seq<Map<Seq<char>, Symbol>>,
    b: Seq<Map<Seq<char>, Symbol>>,
    d1: Map<Seq<char>, Decl>,
    d2: Map<Seq<char>, Decl>,
)
    requires
        declared_as(a, b, d1),
        forall|k: Seq<char>| #[trigger] d1.contains_key(k) ==> d2.contains_key(k) && (d2[k] == d1[k] || d2[k] is Copied),
        forall|k: Seq<char>| #[trigger] d2.contains_key(k) && !d1.contains_key(k) ==> d2[k] is Copied,
    ensures
        declared_as(a, b, d2),
{
}

/// What declaring one statement of a loaded module does, once a module it
/// imports has been loaded: the state after it (its changes to the scopes
/// aside) and the keys it declares in the global scope. A function is
/// declared in the module with its own generic parameters in scope; a
/// struct, enum or trait is recorded; an `impl` block's methods are
/// declared (see `impl_signatures`) and an `impl Trait for Type` is queued
/// for validation with the methods it provides; an `extern` block records
/// its library and declares its functions; an `import` records its alias.
/// `from ... import` and `export` change only the scopes; anything else is
/// left alone.
pub open spec fn module_step(v: AnalyzerView, st: Statement) -> (AnalyzerView, Map<Seq<char>, Decl>) {
    match st {
        Statement::Function(f) => if skipped_in(v.build_mode, f.attributes@) {
            (v, Map::empty())
        } else {
            let g = texts(f.generic_params@);
            (signature_read(v, *f, g), sig_decls(v.module, None, f.name@, opt_ast_type(f.return_type, g, v.struct_fields.dom()).0))
        },
        Statement::StructDefinition(sd) => (struct_visited(v, sd), map![sd.name@ => Decl::Module]),
        Statement::EnumDefinition(ed) => (enum_visited(v, ed), enum_decls(v.module, ed)),
        Statement::TraitDefinition(td) => (AnalyzerView { traits: v.traits.insert(td.name@, trait_view_of(td)), ..v }, Map::empty()),
        Statement::ImplBlock(ib) => {
            let v1 = match ib.trait_name {
                Some(t) => AnalyzerView {
                    pending: v.pending.push((ib.struct_name@, t@, impl_provided(v.build_mode, ib.items@))),
                    ..v
                },
                None => v,
            };
            let owner = decode_utf8(bytes_before(encode_utf8(ib.struct_name@), 60));
            let inner = AnalyzerView { impl_struct: Some(owner), generics: texts(ib.generic_params@), ..v1 };
            let (w, keys) = impl_signatures(inner, ib, ib.items@, owner);
            (AnalyzerView { impl_struct: v.impl_struct, generics: v.generics, ..w }, keys)
        },
        Statement::ExternBlock(eb) => extern_signatures(
            AnalyzerView { extern_libs: libs_with(v.extern_libs, eb.library), ..v },
            eb.functions@,
        ),
        Statement::Import { module, alias } => (
            match alias {
                Some(a) => AnalyzerView { module_aliases: v.module_aliases.insert(a@, module@), ..v },
                None => v,
            },
            Map::empty(),
        ),
        Statement::FromImport { members, wildcard, .. } => (
            v,
            if wildcard {
                Map::empty()
            } else {
                copied_decls(from_import_keys(v.module, members@))
            },
        ),
        Statement::Export(names) => (v, copied_decls(export_keys(v.module, names@))),
        _ => (v, Map::empty()),
    }
}

/// Declaring statements of a loaded module in order (see `module_step`).
pub open spec fn module_steps(v: AnalyzerView, stmts: Seq<Statement>) -> (AnalyzerView, Map<Seq<char>, Decl>)
    decreases stmts.len(),
{
    if stmts.len() == 0 {
        (v, Map::empty())
    } else {
        let (w, keys) = module_steps(v, stmts.drop_last());
        let (x, more) = module_step(w, stmts.last());
        (x, more.union_prefer_right(keys))
    }
}

proof fn lemma_module_step_scopes(v: AnalyzerView, w: AnalyzerView, st: Statement)
    requires
        v == (AnalyzerView { scopes: v.scopes, ..w }),
    ensures
        module_step(v, st).0 == (AnalyzerView { scopes: v.scopes, ..module_step(w, st).0 }),
        module_step(v, st).1 == module_step(w, st).1,
{
    match st {
        Statement::Function(f) => {
            lemma_signature_read_scopes(v, w, *f, texts(f.generic_params@));
        },
        Statement::StructDefinition(sd) => {
            let unknown = field_types(sd.fields@, texts(sd.generic_params@), v.struct_fields.dom()).1;
            lemma_with_errors_scopes(v, w, unknown_type_errors(unknown));
        },
        Statement::EnumDefinition(ed) => {
            let unknown = variant_fields(ed.variants@, texts(ed.generic_params@), v.struct_fields.dom()).1;
            lemma_with_errors_scopes(v, w, unknown_type_errors(unknown));
        },
        Statement::ImplBlock(ib) => {
            let owner = decode_utf8(bytes_before(encode_utf8(ib.struct_name@), 60));
            let (v1, w1) = match ib.trait_name {
                Some(t) => (
                    AnalyzerView { pending: v.pending.push((ib.struct_name@, t@, impl_provided(v.build_mode, ib.items@))), ..v },
                    AnalyzerView { pending: w.pending.push((ib.struct_name@, t@, impl_provided(w.build_mode, ib.items@))), ..w },
                ),
                None => (v, w),
            };
            lemma_impl_signatures_scopes(
                AnalyzerView { impl_struct: Some(owner), generics: texts(ib.generic_params@), ..v1 },
                AnalyzerView { impl_struct: Some(owner), generics: texts(ib.generic_params@), ..w1 },
                ib,
                ib.items@,
                owner,
            );
        },
        Statement::ExternBlock(eb) => {
            lemma_extern_signatures_scopes(
                AnalyzerView { extern_libs: libs_with(v.extern_libs, eb.library), ..v },
                AnalyzerView { extern_libs: libs_with(w.extern_libs, eb.library), ..w },
                eb.functions@,
            );
        },
        _ => {},
    }
}

/// The last `::`-separated segment of a module path.
pub open spec fn last_segment_of(m: Seq<char>) -> Seq<char>
    decreases m.len(),
{
    if m.len() < 2 {
        m
    } else if m[m.len() - 2] == ':' && m[m.len() - 1] == ':' {
        Seq::empty()
    } else {
        last_segment_of(m.drop_last()).push(m.last())
    }
}

/// Prepends `c` to the first of the pieces.
pub open spec fn onto_first(c: Seq<char>, ps: Seq<Seq<char>>) -> Seq<Seq<char>> {
    if ps.len() == 0 {
        seq![c]
    } else {
        ps.update(0, c + ps[0])
    }
}

/// The pieces of a module path between its `::` and `.` separators, read
/// from left to right (`a::b.c` has the pieces `a`, `b` and `c`).
pub open spec fn path_pieces(m: Seq<char>) -> Seq<Seq<char>>
    decreases m.len(),
{
    if m.len() == 0 {
        seq![Seq::<char>::empty()]
    } else if m.len() >= 2 && m[0] == ':' && m[1] == ':' {
        seq![Seq::<char>::empty()] + path_pieces(m.skip(2))
    } else if m[0] == '.' {
        seq![Seq::<char>::empty()] + path_pieces(m.skip(1))
    } else {
        onto_first(seq![m[0]], path_pieces(m.skip(1)))
    }
}

/// The pieces that are not empty, in order.
pub open spec fn nonempty_pieces(ps: Seq<Seq<char>>) -> Seq<Seq<char>>
    decreases ps.len(),
{
    if ps.len() == 0 {
        Seq::empty()
    } else if ps.last().len() > 0 {
        nonempty_pieces(ps.drop_last()).push(ps.last())
    } else {
        nonempty_pieces(ps.drop_last())
    }
}

proof fn lemma_path_pieces_nonempty(m: Seq<char>)
    ensures
        path_pieces(m).len() >= 1,
    decreases m.len(),
{
    if m.len() > 0 {
        if m.len() >= 2 && m[0] == ':' && m[1] == ':' {
        } else if m[0] == '.' {
        } else {
            lemma_path_pieces_nonempty(m.skip(1));
        }
    }
}

/// The parts of a module path as a file is looked for by them: its
/// pieces between `::` and `.` separators that are not empty.
pub fn module_path_parts(name: &str) -> (parts: Vec<String>)
    ensures
        texts(parts@) == nonempty_pieces(path_pieces(name@)),
{
    let cs = str_chars(name);
    let mut pieces: Vec<String> = Vec::new();
    let mut cur = String::new();
    let mut i: usize = 0;
    proof {
        lemma_path_pieces_nonempty(cs@);
        assert(cs@.skip(0) =~= cs@);
        assert(onto_first(Seq::<char>::empty(), path_pieces(cs@)) =~= path_pieces(cs@));
    }
    while i < cs.len()
        invariant
            cs@ == name@,
            i <= cs@.len(),
            path_pieces(cs@) == texts(pieces@) + onto_first(cur@, path_pieces(cs@.skip(i as int))),
        decreases cs@.len() - i,
    {
        let ghost rest = cs@.skip(i as int);
        let ghost before = texts(pieces@);
        if cs[i] == ':' && i + 1 < cs.len() && cs[i + 1] == ':' {
            proof {
                assert(rest.skip(2) =~= cs@.skip(i + 2));
                let p = path_pieces(rest.skip(2));
                lemma_path_pieces_nonempty(rest.skip(2));
                assert(Seq::<char>::empty() + p[0] =~= p[0]);
                assert(onto_first(Seq::<char>::empty(), p) =~= p);
                assert(onto_first(cur@, seq![Seq::<char>::empty()] + p) =~= seq![cur@] + p);
            }
            let ghost c0 = cur@;
            pieces.push(cur);
            cur = String::new();
            assert(texts(pieces@) =~= before.push(c0));
            i = i + 2;
            proof {
                let p = path_pieces(cs@.skip(i as int));
                lemma_path_pieces_nonempty(cs@.skip(i as int));
                assert(Seq::<char>::empty() + p[0] =~= p[0]);
                assert(onto_first(cur@, p) =~= p);
                assert(before + (seq![c0] + p) =~= texts(pieces@) + p);
            }
        } else if cs[i] == '.' {
            proof {
                assert(rest.skip(1) =~= cs@.skip(i + 1));
                let p = path_pieces(rest.skip(1));
                lemma_path_pieces_nonempty(rest.skip(1));
                assert(Seq::<char>::empty() + p[0] =~= p[0]);
                assert(onto_first(Seq::<char>::empty(), p) =~= p);
                assert(onto_first(cur@, seq![Seq::<char>::empty()] + p) =~= seq![cur@] + p);
            }
            let ghost c0 = cur@;
            pieces.push(cur);
            cur = String::new();
            assert(texts(pieces@) =~= before.push(c0));
            i = i + 1;
            proof {
                let p = path_pieces(cs@.skip(i as int));
                lemma_path_pieces_nonempty(cs@.skip(i as int));
                assert(Seq::<char>::empty() + p[0] =~= p[0]);
                assert(onto_first(cur@, p) =~= p);
                assert(before + (seq![c0] + p) =~= texts(pieces@) + p);
            }
        } else {
            let ghost c0 = cur@;
            proof {
                assert(rest.skip(1) =~= cs@.skip(i + 1));
                lemma_path_pieces_nonempty(rest.skip(1));
                let y = path_pieces(rest.skip(1));
                assert(c0 + (seq![cs@[i as int]] + y[0]) =~= c0.push(cs@[i as int]) + y[0]);
                assert(onto_first(c0, onto_first(seq![cs@[i as int]], y)) =~= onto_first(c0.push(cs@[i as int]), y));
            }
            let c = crate::text::char_to_string(cs[i]);
            cur.append(c.as_str());
            assert(cur@ =~= c0.push(cs@[i as int]));
            i = i + 1;
        }
    }
    proof {
        assert(cs@.skip(i as int) =~= Seq::<char>::empty());
        assert(cur@ + Seq::<char>::empty() =~= cur@);
        assert(onto_first(cur@, seq![Seq::<char>::empty()]) =~= seq![cur@]);
    }
    let ghost before = texts(pieces@);
    pieces.push(cur);
    assert(texts(pieces@) =~= path_pieces(cs@)) by {
        assert(texts(pieces@) =~= before.push(pieces@.last()@));
    }
    let mut parts: Vec<String> = Vec::new();
    let mut j: usize = 0;
    assert(texts(pieces@).take(0) =~= Seq::<Seq<char>>::empty());
    while j < pieces.len()
        invariant
            j <= pieces@.len(),
            texts(parts@) == nonempty_pieces(texts(pieces@).take(j as int)),
        decreases pieces@.len() - j,
    {
        assert(texts(pieces@).take(j + 1).drop_last() =~= texts(pieces@).take(j as int));
        assert(texts(pieces@).take(j + 1).last() == pieces@[j as int]@);
        if pieces[j].as_str().unicode_len() > 0 {
            let ghost pb = texts(parts@);
            parts.push(pieces[j].clone());
            assert(texts(parts@) =~= pb.push(pieces@[j as int]@));
        }
        j = j + 1;
    }
    assert(texts(pieces@).take(j as int) =~= texts(pieces@));
    parts
}

/// Where a module being loaded is in its statements, and what the
/// loading set aside: the module and directory to restore, whether its
/// declarations wait for a module it imports, whether it has an explicit
/// export list, its `#[no_export]` names, the traits it defined and the
/// modules it imported so far.
pub struct ModuleFrame {
    pub module_name: String,
    pub prev_module: String,
    pub prev_dir: Option<String>,
    pub next: usize,
    pub awaiting: bool,
    pub explicit_export: bool,
    pub no_export: Vec<String>,
    pub traits: Vec<String>,
    pub imported: Vec<String>,
}

/// Whether the statement is an `export`.
fn is_export(st: &Statement) -> (r: bool)
    ensures
        r == (*st is Export),
{
    match st {
        Statement::Export(_) => true,
        _ => false,
    }
}

/// The text after the last `::` of a module path (see `last_segment_of`).
fn last_segment_exec(m: &str) -> (r: String)
    ensures
        r@ == last_segment_of(m@),
{
    let cs = str_chars(m);
    let mut r = String::new();
    let mut i: usize = 0;
    assert(r@ =~= last_segment_of(cs@.take(0)));
    while i < cs.len()
        invariant
            cs@ == m@,
            i <= cs@.len(),
            r@ == last_segment_of(cs@.take(i as int)),
        decreases cs@.len() - i,
    {
        let ghost t = cs@.take(i + 1);
        assert(t.drop_last() =~= cs@.take(i as int));
        if i >= 1 && cs[i - 1] == ':' && cs[i] == ':' {
            r = String::new();
            assert(r@ =~= last_segment_of(t));
        } else {
            let c = crate::text::char_to_string(cs[i]);
            r.append(c.as_str());
            assert(r@ =~= last_segment_of(t));
        }
        i = i + 1;
    }
    assert(cs@.take(i as int) =~= m@);
    r
}

impl SemanticAnalyzer {
    /// Begins loading the module `module_name`, read from `file_path` and
    /// parsed into `program`: a module already loaded is left alone
    /// (`None`). Otherwise it is recorded as loaded, its directory (the
    /// file's parent) becomes where its relative imports are resolved, it
    /// becomes the current module and is declared as a module; the frame
    /// returned drives `declare_module_statements`.
    pub fn begin_module(&mut self, module_name: &str, file_path: &str, program: &Program) -> (frame: Option<ModuleFrame>)
        ensures
            old(self)@.loaded_modules.contains(module_name@) ==> frame is None && final(self)@ == old(self)@,
            !old(self)@.loaded_modules.contains(module_name@) ==> (frame matches Some(f) && {
                &&& f.module_name@ == module_name@
                &&& f.prev_module@ == old(self)@.module
                &&& opt_text(f.prev_dir) == old(self)@.module_dir
                &&& f.next == 0
                &&& !f.awaiting
                &&& f.explicit_export == has_export(program.statements@)
                &&& texts(f.no_export@) == no_export_names(program.statements@)
                &&& f.traits@.len() == 0
                &&& f.imported@.len() == 0
                &&& final(self)@ == (AnalyzerView {
                    scopes: final(self)@.scopes,
                    module_dir: final(self)@.module_dir,
                    loaded_modules: old(self)@.loaded_modules.push(module_name@),
                    module: module_name@,
                    ..old(self)@
                })
                &&& (final(self)@.module_dir is None ==> old(self)@.module_dir is None)
                &&& (ordinary_path(file_path@) ==> final(self)@.module_dir == Some(parent_dir(file_path@)))
                &&& declared_as(old(self)@.scopes, final(self)@.scopes, map![module_name@ => Decl::Module])
                &&& scopes_kept(old(self)@.scopes, final(self)@.scopes)
                &&& final(self)@.scopes.len() > 0
                &&& final(self)@.scopes[0].contains_key(module_name@)
            }),
    {
        if names_contain(&self.loaded_modules, module_name) {
            return None;
        }
        let prev_dir = match &self.current_module_dir {
            Some(d) => Some(d.clone()),
            None => None,
        };
        match path_parent(file_path) {
            Some(p) => {
                self.current_module_dir = Some(p);
            },
            None => {},
        }
        self.loaded_modules.push(owned(module_name));
        assert(texts(self.loaded_modules@) =~= old(self)@.loaded_modules.push(module_name@));
        let prev_module = self.current_module.clone();
        self.current_module = owned(module_name);
        self.declare_module_name(module_name);
        let stmts = &program.statements;
        let mut explicit = false;
        let mut no_export: Vec<String> = Vec::new();
        let mut i: usize = 0;
        assert(stmts@.take(0) =~= Seq::<Statement>::empty());
        while i < stmts.len()
            invariant
                i <= stmts@.len(),
                explicit <==> exists|k: int| 0 <= k < i && #[trigger] stmts@[k] is Export,
                texts(no_export@) == no_export_names(stmts@.take(i as int)),
            decreases stmts@.len() - i,
        {
            assert(stmts@.take(i + 1).drop_last() =~= stmts@.take(i as int));
            assert(stmts@.take(i + 1).last() == stmts@[i as int]);
            if is_export(&stmts[i]) {
                explicit = true;
            }
            let name: Option<&String> = match &stmts[i] {
                Statement::Function(f) => if names_contain(&f.attributes, "no_export") {
                    Some(&f.name)
                } else {
                    None
                },
                Statement::StructDefinition(d) => if names_contain(&d.attributes, "no_export") {
                    Some(&d.name)
                } else {
                    None
                },
                Statement::TraitDefinition(d) => if names_contain(&d.attributes, "no_export") {
                    Some(&d.name)
                } else {
                    None
                },
                Statement::EnumDefinition(d) => if names_contain(&d.attributes, "no_export") {
                    Some(&d.name)
                } else {
                    None
                },
                _ => None,
            };
            match name {
                Some(n) => {
                    let ghost before = no_export@;
                    no_export.push(n.clone());
                    assert(texts(no_export@) =~= texts(before).push(n@));
                },
                None => {},
            }
            i = i + 1;
        }
        assert(stmts@.take(i as int) =~= stmts@);
        Some(ModuleFrame {
            module_name: owned(module_name),
            prev_module,
            prev_dir,
            next: 0,
            awaiting: false,
            explicit_export: explicit,
            no_export,
            traits: Vec::new(),
            imported: Vec::new(),
        })
    }

    /// Declares one statement of a loaded module (see `module_step`).
    fn declare_module_statement(&mut self, st: &Statement)
        ensures
            ({
                let (w, keys) = module_step(old(self)@, *st);
                &&& final(self)@ == (AnalyzerView { scopes: final(self)@.scopes, ..w })
                &&& scopes_kept(old(self)@.scopes, final(self)@.scopes)
                &&& declared_as(old(self)@.scopes, final(self)@.scopes, keys)
            }),
    {
        let ghost pre = self@;
        proof {
            lemma_scopes_kept_refl(pre.scopes);
            lemma_declared_as_none(pre.scopes);
        }
        match st {
            Statement::Function(f) => {
                let skip = self.build_mode == BuildMode::Release && names_contain(&f.attributes, "debug");
                if !skip {
                    let g = clone_strings(&f.generic_params);
                    self.declare_signature(&**f, g, None);
                }
            },
            Statement::StructDefinition(sd) => {
                self.visit_struct_definition(sd);
            },
            Statement::EnumDefinition(ed) => {
                self.visit_enum_definition(ed);
            },
            Statement::TraitDefinition(td) => {
                self.visit_trait_definition(td);
            },
            Statement::ImplBlock(ib) => {
                match &ib.trait_name {
                    Some(t) => {
                        let provided = self.provided_methods(ib);
                        self.pending_trait_impls.push((ib.struct_name.clone(), t.clone(), provided));
                        assert(self@.pending =~= pre.pending.push((ib.struct_name@, t@, impl_provided(pre.build_mode, ib.items@))));
                    },
                    None => {},
                }
                self.declare_impl_signatures(ib);
            },
            Statement::ExternBlock(eb) => {
                match &eb.library {
                    Some(lib) => {
                        if !str_eq(lib.as_str(), "C") && !names_contain(&self.extern_libs, lib.as_str()) {
                            self.extern_libs.push(lib.clone());
                            assert(texts(self.extern_libs@) =~= pre.extern_libs.push(lib@));
                        }
                    },
                    None => {},
                }
                self.declare_extern_signatures(eb);
            },
            Statement::Import { module, alias } => {
                match alias {
                    Some(a) => {
                        self.module_aliases.insert(a.clone(), module.clone());
                        assert(self@.module_aliases =~= pre.module_aliases.insert(a@, module@));
                    },
                    None => {},
                }
            },
            Statement::FromImport { module, members, wildcard } => {
                if !*wildcard {
                    let mut i: usize = 0;
                    let ghost ks = from_import_keys(pre.module, members@);
                    proof {
                        assert(copied_decls(ks.take(0)) =~= Map::<Seq<char>, Decl>::empty());
                    }
                    while i < members.len()
                        invariant
                            i <= members@.len(),
                            ks == from_import_keys(pre.module, members@),
                            self@ == (AnalyzerView { scopes: self@.scopes, ..pre }),
                            scopes_kept(pre.scopes, self@.scopes),
                            declared_as(pre.scopes, self@.scopes, copied_decls(ks.take(i as int))),
                        decreases members@.len() - i,
                    {
                        proof {
                            lemma_take_contains(ks, i as int, ks[i as int]);
                            assert forall|k: Seq<char>| ks.take(i as int).contains(k) implies ks.take(i + 1).contains(k) by {
                                lemma_take_contains(ks, i as int, k);
                            }
                        }
                        let mut key = module.clone();
                        key.append("::");
                        key.append(members[i].0.as_str());
                        let found = match self.env.lookup_symbol(key.as_str()) {
                            Some(sym) => Some(data_type_clone(&sym.data_type)),
                            None => None,
                        };
                        match found {
                            Some(t) => {
                                let name = match &members[i].1 {
                                    Some(a) => a.clone(),
                                    None => members[i].0.clone(),
                                };
                                let m = self.current_module.clone();
                                let ghost s0 = self@.scopes;
                                let accepted = self.env.declare_function(name.as_str(), &t, m.as_str());
                                proof {
                                    let k = m@ + "."@ + name@;
                                    lemma_declared_keeps(s0, self@.scopes, 0, k, accepted);
                                    lemma_scopes_kept_trans(pre.scopes, s0, self@.scopes);
                                    lemma_declared_in_as(s0, self@.scopes, k, accepted, Decl::Copied);
                                    lemma_declared_as_then(pre.scopes, s0, self@.scopes, copied_decls(ks.take(i as int)), k, Decl::Copied);
                                    assert(k == ks[i as int]);
                                    lemma_declared_as_loosen(
                                        pre.scopes,
                                        self@.scopes,
                                        first_wins(copied_decls(ks.take(i as int)), k, Decl::Copied),
                                        copied_decls(ks.take(i + 1)),
                                    );
                                }
                            },
                            None => {
                                proof {
                                    lemma_declared_as_loosen(
                                        pre.scopes,
                                        self@.scopes,
                                        copied_decls(ks.take(i as int)),
                                        copied_decls(ks.take(i + 1)),
                                    );
                                }
                            },
                        }
                        i = i + 1;
                    }
                    assert(ks.take(i as int) =~= ks);
                }
            },
            Statement::Export(names) => {
                let mut i: usize = 0;
                let ghost ks = export_keys(pre.module, names@);
                proof {
                    assert(copied_decls(ks.take(0)) =~= Map::<Seq<char>, Decl>::empty());
                }
                while i < names.len()
                    invariant
                        i <= names@.len(),
                        ks == export_keys(pre.module, names@),
                        self@ == (AnalyzerView { scopes: self@.scopes, ..pre }),
                        scopes_kept(pre.scopes, self@.scopes),
                        declared_as(pre.scopes, self@.scopes, copied_decls(ks.take(i as int))),
                    decreases names@.len() - i,
                {
                    proof {
                        lemma_take_contains(ks, i as int, ks[i as int]);
                        assert forall|k: Seq<char>| ks.take(i as int).contains(k) implies ks.take(i + 1).contains(k) by {
                            lemma_take_contains(ks, i as int, k);
                        }
                    }
                    let cs = str_chars(names[i].as_str());
                    let mut first_dot: Option<usize> = None;
                    let mut last_dot_at: Option<usize> = None;
                    let mut j: usize = 0;
                    assert(cs@.take(0) =~= Seq::<char>::empty());
                    while j < cs.len()
                        invariant
                            j <= cs@.len(),
                            first_dot matches Some(a) ==> a < cs@.len(),
                            last_dot_at matches Some(b) ==> b < cs@.len(),
                            last_dot_at matches Some(b) ==> last_dot(cs@.take(j as int)) == b,
                            last_dot_at is None ==> last_dot(cs@.take(j as int)) < 0,
                        decreases cs@.len() - j,
                    {
                        assert(cs@.take(j + 1).drop_last() =~= cs@.take(j as int));
                        if cs[j] == '.' {
                            if first_dot.is_none() {
                                first_dot = Some(j);
                            }
                            last_dot_at = Some(j);
                        }
                        j = j + 1;
                    }
                    assert(cs@.take(j as int) =~= cs@);
                    let short = match last_dot_at {
                        Some(b) => chars_to_string(&cs, b + 1, cs.len()),
                        None => names[i].clone(),
                    };
                    let key = match first_dot {
                        Some(a) => {
                            let head = chars_to_string(&cs, 0, a);
                            let mut k = match self.module_aliases.get(head.as_str()) {
                                Some(r) => r.clone(),
                                None => head,
                            };
                            k.append("::");
                            k.append(short.as_str());
                            k
                        },
                        None => {
                            let mut k = self.current_module.clone();
                            k.append("::");
                            k.append(names[i].as_str());
                            k
                        },
                    };
                    let found = match self.env.lookup_symbol(key.as_str()) {
                        Some(sym) => Some(data_type_clone(&sym.data_type)),
                        None => None,
                    };
                    assert(short@ == export_short(names@[i as int]@)) by {
                        match last_dot_at {
                            Some(b) => {
                                assert(cs@.subrange(b + 1, cs@.len() as int) =~= cs@.skip(b + 1));
                            },
                            None => {},
                        }
                    }
                    match found {
                        Some(t) => {
                            let m = self.current_module.clone();
                            let ghost s0 = self@.scopes;
                            let accepted = self.env.declare_function(short.as_str(), &t, m.as_str());
                            proof {
                                let k = m@ + "."@ + short@;
                                lemma_declared_keeps(s0, self@.scopes, 0, k, accepted);
                                lemma_scopes_kept_trans(pre.scopes, s0, self@.scopes);
                                lemma_declared_in_as(s0, self@.scopes, k, accepted, Decl::Copied);
                                lemma_declared_as_then(pre.scopes, s0, self@.scopes, copied_decls(ks.take(i as int)), k, Decl::Copied);
                                assert(k == ks[i as int]);
                                lemma_declared_as_loosen(
                                    pre.scopes,
                                    self@.scopes,
                                    first_wins(copied_decls(ks.take(i as int)), k, Decl::Copied),
                                    copied_decls(ks.take(i + 1)),
                                );
                            }
                        },
                        None => {
                            proof {
                                lemma_declared_as_loosen(
                                    pre.scopes,
                                    self@.scopes,
                                    copied_decls(ks.take(i as int)),
                                    copied_decls(ks.take(i + 1)),
                                );
                            }
                        },
                    }
                    i = i + 1;
                }
                assert(ks.take(i as int) =~= ks);
            },
            _ => {},
        }
    }
}

/// The key is declared in the global scope.
pub open spec fn in_global(scopes: Seq<Map<Seq<char>, Symbol>>, k: Seq<char>) -> bool {
    scopes.len() > 0 && scopes[0].contains_key(k)
}

/// The names of the traits defined among `stmts`, in order.
pub open spec fn trait_names(stmts: Seq<Statement>) -> Seq<Seq<char>>
    decreases stmts.len(),
{
    if stmts.len() == 0 {
        Seq::empty()
    } else {
        match stmts.last() {
            Statement::TraitDefinition(td) => trait_names(stmts.drop_last()).push(td.name@),
            _ => trait_names(stmts.drop_last()),
        }
    }
}

/// The names among `names` that `excluded` does not hold, in order.
pub open spec fn kept_names(names: Seq<Seq<char>>, excluded: Seq<Seq<char>>) -> Seq<Seq<char>>
    decreases names.len(),
{
    if names.len() == 0 {
        Seq::empty()
    } else if excluded.contains(names.last()) {
        kept_names(names.drop_last(), excluded)
    } else {
        kept_names(names.drop_last(), excluded).push(names.last())
    }
}

/// The last segment of each module path (see `last_segment_of`).
pub open spec fn last_segments(ms: Seq<Seq<char>>) -> Seq<Seq<char>> {
    ms.map_values(|m: Seq<char>| last_segment_of(m))
}

/// What a module without an `export` list exports at the end of its
/// loading: its traits not marked `#[no_export]`, then the last segment of
/// each module it imported, all as module names.
pub open spec fn default_exports(traits: Seq<Seq<char>>, no_export: Seq<Seq<char>>, imported: Seq<Seq<char>>) -> Map<Seq<char>, Decl> {
    module_decls(last_segments(imported)).union_prefer_right(module_decls(kept_names(traits, no_export)))
}

proof fn lemma_module_decls_push(names: Seq<Seq<char>>, n: Seq<char>)
    ensures
        first_wins(module_decls(names), n, Decl::Module) =~= module_decls(names.push(n)),
{
    assert forall|k: Seq<char>| names.push(n).contains(k) <==> (names.contains(k) || k == n) by {
        if names.contains(k) {
            let j = choose|j: int| 0 <= j < names.len() && #[trigger] names[j] == k;
            assert(names.push(n)[j] == k);
        }
        if k == n {
            assert(names.push(n)[names.len() as int] == k);
        }
        if names.push(n).contains(k) {
            let j = choose|j: int| 0 <= j < names.push(n).len() && #[trigger] names.push(n)[j] == k;
            if j < names.len() {
                assert(names[j] == k);
            }
        }
    }
}

/// The modules `import`ed among `stmts`, in order.
pub open spec fn imported_names(stmts: Seq<Statement>) -> Seq<Seq<char>>
    decreases stmts.len(),
{
    if stmts.len() == 0 {
        Seq::empty()
    } else {
        match stmts.last() {
            Statement::Import { module, .. } => imported_names(stmts.drop_last()).push(module@),
            _ => imported_names(stmts.drop_last()),
        }
    }
}

impl SemanticAnalyzer {
    /// Declares a loaded module's statements from where `frame` stands
    /// (see `module_steps`), until one imports another module: its name is
    /// returned for the caller to load (with `begin_module`) before calling
    /// again, which completes that import (an `import`'s alias is recorded,
    /// a `from ... import`'s members are declared in this module when they
    /// resolve as `<module>::<member>`; a wildcard declares nothing). At the
    /// end (`None`), a module without an `export` list also exports its
    /// traits not marked `#[no_export]` and the last segment of each module
    /// it imported (each declared as a module name); its functions, structs
    /// and enums are already declared in it. The current module and
    /// directory are then restored.
    #[verifier::rlimit(40)]
    #[verifier::spinoff_prover]
    pub fn declare_module_statements(&mut self, frame: &mut ModuleFrame, program: &Program) -> (pending: Option<String>)
        requires
            old(frame).next <= program.statements@.len(),
            old(frame).awaiting ==> old(frame).next < program.statements@.len() && import_name(
                program.statements@[old(frame).next as int],
            ) is Some,
        ensures
            ({
                let stmts = program.statements@;
                let done = stmts.subrange(old(frame).next as int, final(frame).next as int);
                let (w, keys) = module_steps(old(self)@, done);
                let fs = final(self)@.scopes;
                &&& old(frame).next <= final(frame).next <= stmts.len()
                &&& final(frame).module_name == old(frame).module_name
                &&& final(frame).prev_module == old(frame).prev_module
                &&& final(frame).prev_dir == old(frame).prev_dir
                &&& final(frame).explicit_export == old(frame).explicit_export
                &&& final(frame).no_export == old(frame).no_export
                &&& texts(final(frame).traits@) == texts(old(frame).traits@) + trait_names(done)
                &&& texts(final(frame).imported@) == texts(old(frame).imported@) + imported_names(done)
                &&& scopes_kept(old(self)@.scopes, fs)
                &&& match pending {
                    Some(m) => {
                        &&& final(frame).next < stmts.len()
                        &&& import_name(stmts[final(frame).next as int]) == Some(m@)
                        &&& final(frame).awaiting
                        &&& final(self)@ == (AnalyzerView { scopes: fs, ..w })
                        &&& declared_as(old(self)@.scopes, fs, keys)
                    },
                    None => {
                        &&& final(frame).next == stmts.len()
                        &&& !final(frame).awaiting
                        &&& final(self)@ == (AnalyzerView {
                            scopes: fs,
                            module: old(frame).prev_module@,
                            module_dir: opt_text(old(frame).prev_dir),
                            ..w
                        })
                        &&& !final(frame).explicit_export ==> forall|i: int|
                            0 <= i < final(frame).traits@.len() && !texts(final(frame).no_export@).contains(
                                #[trigger] final(frame).traits@[i]@,
                            ) ==> in_global(fs, final(frame).traits@[i]@)
                        &&& !final(frame).explicit_export ==> forall|i: int|
                            0 <= i < final(frame).imported@.len() ==> in_global(
                                fs,
                                last_segment_of(#[trigger] final(frame).imported@[i]@),
                            )
                        &&& declared_as(
                            old(self)@.scopes,
                            fs,
                            if final(frame).explicit_export {
                                keys
                            } else {
                                default_exports(
                                    texts(final(frame).traits@),
                                    texts(final(frame).no_export@),
                                    texts(final(frame).imported@),
                                ).union_prefer_right(keys)
                            },
                        )
                    },
                }
            }),
    {
        let ghost stmts = program.statements@;
        let ghost start = frame.next as int;
        let ghost t0 = texts(frame.traits@);
        let ghost m0 = texts(frame.imported@);
        proof {
            lemma_scopes_kept_refl(old(self)@.scopes);
            lemma_declared_as_none(old(self)@.scopes);
            assert(stmts.subrange(start, start) =~= Seq::<Statement>::empty());
        }
        loop
            invariant
                start <= frame.next <= stmts.len(),
                stmts == program.statements@,
                frame.awaiting ==> frame.next < stmts.len() && import_name(stmts[frame.next as int]) is Some,
                frame.module_name == old(frame).module_name,
                frame.prev_module == old(frame).prev_module,
                frame.prev_dir == old(frame).prev_dir,
                frame.explicit_export == old(frame).explicit_export,
                frame.no_export == old(frame).no_export,
                texts(frame.traits@) == t0 + trait_names(stmts.subrange(start, frame.next as int)),
                texts(frame.imported@) == m0 + imported_names(stmts.subrange(start, frame.next as int)),
                t0 == texts(old(frame).traits@),
                m0 == texts(old(frame).imported@),
                start == old(frame).next,
                ({
                    let (w, keys) = module_steps(old(self)@, stmts.subrange(start, frame.next as int));
                    &&& self@ == (AnalyzerView { scopes: self@.scopes, ..w })
                    &&& scopes_kept(old(self)@.scopes, self@.scopes)
                    &&& declared_as(old(self)@.scopes, self@.scopes, keys)
                }),
            ensures
                frame.next == stmts.len(),
                !frame.awaiting,
            decreases stmts.len() - frame.next, if frame.awaiting { 1int } else { 0int },
        {
            let i = frame.next;
            if i < program.statements.len() && !frame.awaiting {
                match &program.statements[i] {
                    Statement::Import { module, .. } => {
                        frame.awaiting = true;
                        return Some(module.clone());
                    },
                    Statement::FromImport { module, .. } => {
                        frame.awaiting = true;
                        return Some(module.clone());
                    },
                    _ => {},
                }
            }
            if i == program.statements.len() {
                break;
            }
            let ghost before = module_steps(old(self)@, stmts.subrange(start, i as int));
            let ghost pre = self@;
            let ghost st = stmts[i as int];
            assert(stmts.subrange(start, i + 1).drop_last() =~= stmts.subrange(start, i as int));
            assert(stmts.subrange(start, i + 1).last() == st);
            proof {
                lemma_module_step_scopes(pre, before.0, st);
            }
            match &program.statements[i] {
                Statement::TraitDefinition(td) => {
                    let ghost tb = frame.traits@;
                    frame.traits.push(td.name.clone());
                    assert(texts(frame.traits@) =~= texts(tb).push(td.name@));
                },
                Statement::Import { module, .. } => {
                    let ghost ib = frame.imported@;
                    frame.imported.push(module.clone());
                    assert(texts(frame.imported@) =~= texts(ib).push(module@));
                },
                _ => {},
            }
            self.declare_module_statement(&program.statements[i]);
            proof {
                let (x, more) = module_step(before.0, st);
                lemma_scopes_kept_trans(old(self)@.scopes, pre.scopes, self@.scopes);
                lemma_declared_as_trans(old(self)@.scopes, pre.scopes, self@.scopes, before.1, more);
            }
            frame.awaiting = false;
            frame.next = i + 1;
        }
        let ghost mid = self@;
        let ghost (w, keys) = module_steps(old(self)@, stmts.subrange(start, frame.next as int));
        let ghost tn = texts(frame.traits@);
        let ghost ex = texts(frame.no_export@);
        let ghost im = texts(frame.imported@);
        if !frame.explicit_export {
            let mut j: usize = 0;
            proof {
                lemma_declared_as_none(mid.scopes);
                assert(tn.take(0) =~= Seq::<Seq<char>>::empty());
                assert(module_decls(kept_names(tn.take(0), ex)) =~= Map::<Seq<char>, Decl>::empty());
            }
            while j < frame.traits.len()
                invariant
                    j <= frame.traits@.len(),
                    tn == texts(frame.traits@),
                    ex == texts(frame.no_export@),
                    self@ == (AnalyzerView { scopes: self@.scopes, ..mid }),
                    scopes_kept(mid.scopes, self@.scopes),
                    declared_as(mid.scopes, self@.scopes, module_decls(kept_names(tn.take(j as int), ex))),
                    forall|k: int| 0 <= k < j && !texts(frame.no_export@).contains(#[trigger] frame.traits@[k]@) ==> self@.scopes.len() > 0
                        && self@.scopes[0].contains_key(frame.traits@[k]@),
                decreases frame.traits@.len() - j,
            {
                assert(tn.take(j + 1).drop_last() =~= tn.take(j as int));
                assert(tn.take(j + 1).last() == frame.traits@[j as int]@);
                if !names_contain(&frame.no_export, frame.traits[j].as_str()) {
                    let ghost s0 = self@.scopes;
                    let n = frame.traits[j].clone();
                    self.declare_module_name(n.as_str());
                    proof {
                        lemma_scopes_kept_trans(mid.scopes, s0, self@.scopes);
                        let kn = kept_names(tn.take(j as int), ex);
                        lemma_declared_as_then(mid.scopes, s0, self@.scopes, module_decls(kn), n@, Decl::Module);
                        lemma_module_decls_push(kn, n@);
                        assert forall|k: int| 0 <= k < j && !texts(frame.no_export@).contains(#[trigger] frame.traits@[k]@) implies self@.scopes.len() > 0
                            && self@.scopes[0].contains_key(frame.traits@[k]@) by {
                            lemma_scopes_kept_key(s0, self@.scopes, frame.traits@[k]@);
                        }
                    }
                }
                j = j + 1;
            }
            assert(tn.take(j as int) =~= tn);
            let ghost mid2 = self@;
            let mut j: usize = 0;
            proof {
                lemma_declared_as_none(mid2.scopes);
                assert(im.take(0) =~= Seq::<Seq<char>>::empty());
                assert(module_decls(last_segments(im.take(0))) =~= Map::<Seq<char>, Decl>::empty());
            }
            while j < frame.imported.len()
                invariant
                    j <= frame.imported@.len(),
                    im == texts(frame.imported@),
                    self@ == (AnalyzerView { scopes: self@.scopes, ..mid }),
                    scopes_kept(mid.scopes, self@.scopes),
                    scopes_kept(mid2.scopes, self@.scopes),
                    declared_as(mid2.scopes, self@.scopes, module_decls(last_segments(im.take(j as int)))),
                    forall|k: int| 0 <= k < frame.traits@.len() && !texts(frame.no_export@).contains(#[trigger] frame.traits@[k]@) ==> mid2.scopes.len() > 0
                        && mid2.scopes[0].contains_key(frame.traits@[k]@),
                    forall|k: int| 0 <= k < j ==> self@.scopes.len() > 0 && self@.scopes[0].contains_key(last_segment_of(#[trigger] frame.imported@[k]@)),
                decreases frame.imported@.len() - j,
            {
                let ghost s0 = self@.scopes;
                let short = last_segment_exec(frame.imported[j].as_str());
                self.declare_module_name(short.as_str());
                proof {
                    lemma_scopes_kept_trans(mid.scopes, s0, self@.scopes);
                    lemma_scopes_kept_trans(mid2.scopes, s0, self@.scopes);
                    let ls = last_segments(im.take(j as int));
                    lemma_declared_as_then(mid2.scopes, s0, self@.scopes, module_decls(ls), short@, Decl::Module);
                    lemma_module_decls_push(ls, short@);
                    assert(last_segments(im.take(j + 1)) =~= ls.push(short@));
                    assert forall|k: int| 0 <= k < j implies self@.scopes.len() > 0 && self@.scopes[0].contains_key(last_segment_of(#[trigger] frame.imported@[k]@)) by {
                        lemma_scopes_kept_key(s0, self@.scopes, last_segment_of(frame.imported@[k]@));
                    }
                }
                j = j + 1;
            }
            assert(im.take(j as int) =~= im);
            proof {
                assert forall|k: int| 0 <= k < frame.traits@.len() && !texts(frame.no_export@).contains(#[trigger] frame.traits@[k]@) implies self@.scopes.len() > 0
                    && self@.scopes[0].contains_key(frame.traits@[k]@) by {
                    lemma_scopes_kept_key(mid2.scopes, self@.scopes, frame.traits@[k]@);
                }
                let d1 = module_decls(kept_names(tn, ex));
                let d2 = module_decls(last_segments(im));
                lemma_declared_as_trans(old(self)@.scopes, mid.scopes, mid2.scopes, keys, d1);
                lemma_declared_as_trans(old(self)@.scopes, mid2.scopes, self@.scopes, d1.union_prefer_right(keys), d2);
                assert(d2.union_prefer_right(d1.union_prefer_right(keys)) =~= default_exports(tn, ex, im).union_prefer_right(keys));
            }
        }
        proof {
            lemma_scopes_kept_trans(old(self)@.scopes, mid.scopes, self@.scopes);
        }
        self.current_module = frame.prev_module.clone();
        self.current_module_dir = match &frame.prev_dir {
            Some(d) => Some(d.clone()),
            None => None,
        };
        None
    }
}

} // verus!
