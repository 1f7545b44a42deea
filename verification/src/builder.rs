//! The intermediate-form builder's own state (its expression stack, the
//! generic parameters in scope, its errors) and its `#[expand]` macro
//! expander, which inlines calls of macros into the call sites.
use vstd::prelude::*;
use crate::environment::{DataType, TypeView, data_type_clone};
use crate::ir::{
    GobolIR, IRStruct, IRField, IRFunction, IRParam, IRImpl, LitValue, LitV, FunctionV, functions_view, impl_view, impls_view,
    clone_functions, clone_function, clone_stmts, lemma_functions_view_push, lemma_stmts_view_push,
    IRBlock, IRExpr, IRStmt, ExprV, StmtV, function_view, expr_view, exprs_view, inits_view, stmts_view, stmt_view, strings_view,
    clone_expr, clone_exprs, clone_types, clone_strings,
};
use crate::table::Table;
use crate::text::{str_eq, nat_digits, owned, append_nat, bytes_before, text_before, char_lowercase, join_seq, join_strings, str_chars};
use vstd::utf8::{encode_utf8, decode_utf8};
use crate::ast::{ImplBlock, Function, Parameter, Expression, TypeNode, StructDefinition, StructField, EnumDefinition, EnumVariant, Program, Statement};
use crate::semantic_analyzer::{digit_end, digits_value};
use crate::semantic_analyzer::{operator_method, SemanticAnalyzer};

verus! {

// ==================== macro bodies ====================

/// The `#[expand]` functions known to the builder: for each name, its
/// parameters and its body.
pub type MacroTable = Map<Seq<char>, (Seq<Seq<char>>, Seq<StmtV>)>;

/// The operand of the first `return` with a value at or after `i`.
pub open spec fn first_return(body: Seq<StmtV>, i: int) -> Option<ExprV>
    decreases body.len() - i,
{
    if i < 0 || i >= body.len() {
        None
    } else {
        match body[i] {
            StmtV::Return(Some(e)) => Some(e),
            _ => first_return(body, i + 1),
        }
    }
}

/// The last expression statement of a body.
pub open spec fn last_expression(body: Seq<StmtV>) -> Option<ExprV>
    decreases body.len(),
{
    if body.len() == 0 {
        None
    } else {
        match body.last() {
            StmtV::Expression(e) => Some(e),
            _ => last_expression(body.drop_last()),
        }
    }
}

/// What a macro body yields: the operand of its first `return` with a
/// value, else its last expression statement (the implicit return).
pub open spec fn result_expr(body: Seq<StmtV>) -> Option<ExprV> {
    match first_return(body, 0) {
        Some(e) => Some(e),
        None => last_expression(body),
    }
}

// ==================== substitution ====================

/// The value bound to `name` when parameters `params` are bound to `vals`
/// in order: the last binding of the name wins.
pub open spec fn bound_value(params: Seq<Seq<char>>, vals: Seq<ExprV>, name: Seq<char>) -> Option<ExprV>
    decreases params.len(),
{
    if params.len() == 0 {
        None
    } else if params.last() == name {
        Some(vals[params.len() - 1])
    } else {
        bound_value(params.drop_last(), vals, name)
    }
}

/// `e` with each variable bound by `params` replaced by its value; the
/// shape of the tree is kept, so precedence needs no parentheses.
pub open spec fn subst(e: ExprV, params: Seq<Seq<char>>, vals: Seq<ExprV>) -> ExprV
    decreases e, 0nat,
{
    match e {
        ExprV::Variable(n) => match bound_value(params, vals, n) {
            Some(v) => v,
            None => e,
        },
        ExprV::Binary { op, left, right } => ExprV::Binary {
            op,
            left: Box::new(subst(*left, params, vals)),
            right: Box::new(subst(*right, params, vals)),
        },
        ExprV::Unary { op, operand } => ExprV::Unary { op, operand: Box::new(subst(*operand, params, vals)) },
        ExprV::Call { func, args, generic_args } => ExprV::Call {
            func,
            args: subst_all(args, params, vals),
            generic_args,
        },
        ExprV::MethodCall { object, method, args, generic_args } => ExprV::MethodCall {
            object: Box::new(subst(*object, params, vals)),
            method,
            args: subst_all(args, params, vals),
            generic_args,
        },
        ExprV::MemberAccess { object, member } => ExprV::MemberAccess {
            object: Box::new(subst(*object, params, vals)),
            member,
        },
        ExprV::ArrayIndex { array, index } => ExprV::ArrayIndex {
            array: Box::new(subst(*array, params, vals)),
            index: Box::new(subst(*index, params, vals)),
        },
        ExprV::ArrayLiteral(items) => ExprV::ArrayLiteral(subst_all(items, params, vals)),
        ExprV::StructLiteral { name, fields } => ExprV::StructLiteral { name, fields: subst_fields(fields, params, vals) },
        ExprV::Cast { expr, target } => ExprV::Cast { expr: Box::new(subst(*expr, params, vals)), target },
        ExprV::Assignment { target, value } => ExprV::Assignment {
            target: Box::new(subst(*target, params, vals)),
            value: Box::new(subst(*value, params, vals)),
        },
        ExprV::IndirectCall { callee, args } => ExprV::IndirectCall {
            callee: Box::new(subst(*callee, params, vals)),
            args: subst_all(args, params, vals),
        },
        _ => e,
    }
}

/// Each expression of `s` substituted.
pub open spec fn subst_all(s: Seq<ExprV>, params: Seq<Seq<char>>, vals: Seq<ExprV>) -> Seq<ExprV>
    decreases s, 1nat,
{
    if s.len() == 0 {
        Seq::empty()
    } else {
        subst_all(s.drop_last(), params, vals).push(subst(s.last(), params, vals))
    }
}

/// Each field initialiser of `s` substituted.
pub open spec fn subst_fields(s: Seq<(Seq<char>, ExprV)>, params: Seq<Seq<char>>, vals: Seq<ExprV>) -> Seq<(Seq<char>, ExprV)>
    decreases s, 1nat,
{
    if s.len() == 0 {
        Seq::empty()
    } else {
        subst_fields(s.drop_last(), params, vals).push((s.last().0, subst(s.last().1, params, vals)))
    }
}

/// Substituting with no parameters changes nothing: a macro without
/// parameters yields its body's expression as it stands.
pub proof fn lemma_subst_without_params(e: ExprV)
    ensures
        subst(e, Seq::empty(), Seq::empty()) == e,
    decreases e, 0nat,
{
    match e {
        ExprV::Binary { op, left, right } => {
            lemma_subst_without_params(*left);
            lemma_subst_without_params(*right);
        },
        ExprV::Unary { op, operand } => lemma_subst_without_params(*operand),
        ExprV::Call { func, args, generic_args } => lemma_subst_all_without_params(args),
        ExprV::MethodCall { object, method, args, generic_args } => {
            lemma_subst_without_params(*object);
            lemma_subst_all_without_params(args);
        },
        ExprV::MemberAccess { object, member } => lemma_subst_without_params(*object),
        ExprV::ArrayIndex { array, index } => {
            lemma_subst_without_params(*array);
            lemma_subst_without_params(*index);
        },
        ExprV::ArrayLiteral(items) => lemma_subst_all_without_params(items),
        ExprV::StructLiteral { name, fields } => lemma_subst_fields_without_params(fields),
        ExprV::Cast { expr, target } => lemma_subst_without_params(*expr),
        ExprV::Assignment { target, value } => {
            lemma_subst_without_params(*target);
            lemma_subst_without_params(*value);
        },
        ExprV::IndirectCall { callee, args } => {
            lemma_subst_without_params(*callee);
            lemma_subst_all_without_params(args);
        },
        _ => {},
    }
}

proof fn lemma_subst_all_without_params(s: Seq<ExprV>)
    ensures
        subst_all(s, Seq::empty(), Seq::empty()) == s,
    decreases s, 1nat,
{
    if s.len() > 0 {
        lemma_subst_all_without_params(s.drop_last());
        lemma_subst_without_params(s.last());
        assert(s.drop_last().push(s.last()) =~= s);
    }
}

proof fn lemma_subst_fields_without_params(s: Seq<(Seq<char>, ExprV)>)
    ensures
        subst_fields(s, Seq::empty(), Seq::empty()) == s,
    decreases s, 1nat,
{
    if s.len() > 0 {
        lemma_subst_fields_without_params(s.drop_last());
        lemma_subst_without_params(s.last().1);
        assert(s.drop_last().push((s.last().0, s.last().1)) =~= s);
    }
}

proof fn lemma_exprs_view_index(s: Seq<IRExpr>)
    ensures
        exprs_view(s).len() == s.len(),
        forall|i: int| 0 <= i < s.len() ==> #[trigger] exprs_view(s)[i] == expr_view(s[i]),
    decreases s.len(),
{
    if s.len() > 0 {
        lemma_exprs_view_index(s.drop_last());
        assert forall|i: int| 0 <= i < s.len() implies #[trigger] exprs_view(s)[i] == expr_view(s[i]) by {
            if i < s.len() - 1 {
                assert(exprs_view(s.drop_last())[i] == expr_view(s.drop_last()[i]));
            }
        }
    }
}

proof fn lemma_stmts_view_index(s: Seq<IRStmt>)
    ensures
        stmts_view(s).len() == s.len(),
        forall|i: int| 0 <= i < s.len() ==> #[trigger] stmts_view(s)[i] == stmt_view(s[i]),
    decreases s.len(),
{
    if s.len() > 0 {
        lemma_stmts_view_index(s.drop_last());
        assert forall|i: int| 0 <= i < s.len() implies #[trigger] stmts_view(s)[i] == stmt_view(s[i]) by {
            if i < s.len() - 1 {
                assert(stmts_view(s.drop_last())[i] == stmt_view(s.drop_last()[i]));
            }
        }
    }
}

proof fn lemma_strings_view_index(s: Seq<String>)
    ensures
        strings_view(s).len() == s.len(),
        forall|i: int| 0 <= i < s.len() ==> #[trigger] strings_view(s)[i] == s[i]@,
{
}

// ==================== expansion ====================

/// The macro call `name(args)` expanded at nesting depth `d` (nothing is
/// expanded at depth `max` or deeper), with `fuel` steps to spend: `None`
/// when the fuel runs out; else `Some(None)` when the call is not expanded
/// (too deep, not a macro, another number of arguments, a body that yields
/// nothing), or `Some(Some(x))` with the macro's result, its parameters
/// replaced by the arguments and the macro calls in it expanded one level
/// deeper.
pub open spec fn try_expand_f(m: MacroTable, name: Seq<char>, args: Seq<ExprV>, d: int, max: int, fuel: nat) -> Option<
    Option<ExprV>,
>
    decreases fuel, 0nat,
{
    if fuel == 0 {
        None
    } else if d >= max {
        Some(None)
    } else if !m.contains_key(name) {
        Some(None)
    } else if m[name].0.len() != args.len() {
        Some(None)
    } else {
        match result_expr(m[name].1) {
            None => Some(None),
            Some(r) => match nested_f(m, subst(r, m[name].0, args), d + 1, max, (fuel - 1) as nat) {
                None => None,
                Some(x) => Some(Some(x)),
            },
        }
    }
}

/// `e` with the macro calls in it expanded at depth `d`, with `fuel` steps
/// (`None` when they run out): a call's arguments are expanded first, then
/// the call, and what a call expands to is expanded again at the same
/// depth; at depth `max` nothing changes.
pub open spec fn nested_f(m: MacroTable, e: ExprV, d: int, max: int, fuel: nat) -> Option<ExprV>
    decreases fuel, 0nat,
{
    if fuel == 0 {
        None
    } else if d >= max {
        Some(e)
    } else {
        let f = (fuel - 1) as nat;
        match e {
            ExprV::Call { func, args, generic_args } => match all_f(m, args, d, max, f) {
                None => None,
                Some(new_args) => match try_expand_f(m, func, new_args, d, max, f) {
                    None => None,
                    Some(None) => Some(ExprV::Call { func, args: new_args, generic_args }),
                    Some(Some(x)) => nested_f(m, x, d, max, f),
                },
            },
            ExprV::Binary { op, left, right } => match (nested_f(m, *left, d, max, f), nested_f(m, *right, d, max, f)) {
                (Some(l), Some(r)) => Some(ExprV::Binary { op, left: Box::new(l), right: Box::new(r) }),
                _ => None,
            },
            ExprV::Unary { op, operand } => match nested_f(m, *operand, d, max, f) {
                Some(o) => Some(ExprV::Unary { op, operand: Box::new(o) }),
                None => None,
            },
            ExprV::MethodCall { object, method, args, generic_args } => match (
                nested_f(m, *object, d, max, f),
                all_f(m, args, d, max, f),
            ) {
                (Some(o), Some(a)) => Some(ExprV::MethodCall { object: Box::new(o), method, args: a, generic_args }),
                _ => None,
            },
            ExprV::MemberAccess { object, member } => match nested_f(m, *object, d, max, f) {
                Some(o) => Some(ExprV::MemberAccess { object: Box::new(o), member }),
                None => None,
            },
            ExprV::ArrayIndex { array, index } => match (nested_f(m, *array, d, max, f), nested_f(m, *index, d, max, f)) {
                (Some(a), Some(i)) => Some(ExprV::ArrayIndex { array: Box::new(a), index: Box::new(i) }),
                _ => None,
            },
            ExprV::ArrayLiteral(items) => match all_f(m, items, d, max, f) {
                Some(a) => Some(ExprV::ArrayLiteral(a)),
                None => None,
            },
            ExprV::StructLiteral { name, fields } => match fields_f(m, fields, d, max, f) {
                Some(fs) => Some(ExprV::StructLiteral { name, fields: fs }),
                None => None,
            },
            ExprV::Cast { expr, target } => match nested_f(m, *expr, d, max, f) {
                Some(x) => Some(ExprV::Cast { expr: Box::new(x), target }),
                None => None,
            },
            ExprV::Assignment { target, value } => match (nested_f(m, *target, d, max, f), nested_f(m, *value, d, max, f)) {
                (Some(t), Some(v)) => Some(ExprV::Assignment { target: Box::new(t), value: Box::new(v) }),
                _ => None,
            },
            ExprV::IndirectCall { callee, args } => match (nested_f(m, *callee, d, max, f), all_f(m, args, d, max, f)) {
                (Some(c), Some(a)) => Some(ExprV::IndirectCall { callee: Box::new(c), args: a }),
                _ => None,
            },
            _ => Some(e),
        }
    }
}

/// Each expression of `s` expanded with the same fuel.
pub open spec fn all_f(m: MacroTable, s: Seq<ExprV>, d: int, max: int, fuel: nat) -> Option<Seq<ExprV>>
    decreases fuel, (s.len() + 1) as nat,
{
    if s.len() == 0 {
        Some(Seq::empty())
    } else {
        match (all_f(m, s.drop_last(), d, max, fuel), nested_f(m, s.last(), d, max, fuel)) {
            (Some(a), Some(x)) => Some(a.push(x)),
            _ => None,
        }
    }
}

/// Each field initialiser of `s` expanded with the same fuel.
pub open spec fn fields_f(m: MacroTable, s: Seq<(Seq<char>, ExprV)>, d: int, max: int, fuel: nat) -> Option<
    Seq<(Seq<char>, ExprV)>,
>
    decreases fuel, (s.len() + 1) as nat,
{
    if s.len() == 0 {
        Some(Seq::empty())
    } else {
        match (fields_f(m, s.drop_last(), d, max, fuel), nested_f(m, s.last().1, d, max, fuel)) {
            (Some(a), Some(x)) => Some(a.push((s.last().0, x))),
            _ => None,
        }
    }
}

/// Expanding the call `name(args)` at depth `d` comes to an end.
pub open spec fn call_expands(m: MacroTable, name: Seq<char>, args: Seq<ExprV>, d: int, max: int) -> bool {
    exists|fuel: nat| #[trigger] try_expand_f(m, name, args, d, max, fuel) is Some
}

/// What the call `name(args)` expands to at depth `d`, when expanding it
/// comes to an end (see `try_expand_f`).
pub open spec fn call_expansion(m: MacroTable, name: Seq<char>, args: Seq<ExprV>, d: int, max: int) -> Option<ExprV> {
    try_expand_f(m, name, args, d, max, choose|fuel: nat| #[trigger] try_expand_f(m, name, args, d, max, fuel) is Some)->0
}

/// Expanding the macro calls in `e` at depth `d` comes to an end.
pub open spec fn nested_expands(m: MacroTable, e: ExprV, d: int, max: int) -> bool {
    exists|fuel: nat| #[trigger] nested_f(m, e, d, max, fuel) is Some
}

/// `e` with its macro calls expanded at depth `d`, when that comes to an
/// end (see `nested_f`).
pub open spec fn nested_expansion(m: MacroTable, e: ExprV, d: int, max: int) -> ExprV {
    nested_f(m, e, d, max, choose|fuel: nat| #[trigger] nested_f(m, e, d, max, fuel) is Some)->0
}

proof fn lemma_try_fuel(m: MacroTable, name: Seq<char>, args: Seq<ExprV>, d: int, max: int, f1: nat, f2: nat)
    requires
        try_expand_f(m, name, args, d, max, f1) is Some,
        f1 <= f2,
    ensures
        try_expand_f(m, name, args, d, max, f2) == try_expand_f(m, name, args, d, max, f1),
    decreases f1, 0nat,
{
    if d < max && m.contains_key(name) && m[name].0.len() == args.len() {
        match result_expr(m[name].1) {
            Some(r) => {
                lemma_nested_fuel(m, subst(r, m[name].0, args), d + 1, max, (f1 - 1) as nat, (f2 - 1) as nat);
            },
            None => {},
        }
    }
}

proof fn lemma_nested_fuel(m: MacroTable, e: ExprV, d: int, max: int, f1: nat, f2: nat)
    requires
        nested_f(m, e, d, max, f1) is Some,
        f1 <= f2,
    ensures
        nested_f(m, e, d, max, f2) == nested_f(m, e, d, max, f1),
    decreases f1, 0nat,
{
    if d < max {
        let g1 = (f1 - 1) as nat;
        let g2 = (f2 - 1) as nat;
        match e {
            ExprV::Call { func, args, generic_args } => {
                lemma_all_fuel(m, args, d, max, g1, g2);
                let na = all_f(m, args, d, max, g1)->0;
                lemma_try_fuel(m, func, na, d, max, g1, g2);
                match try_expand_f(m, func, na, d, max, g1) {
                    Some(Some(x)) => lemma_nested_fuel(m, x, d, max, g1, g2),
                    _ => {},
                }
            },
            ExprV::Binary { op, left, right } => {
                lemma_nested_fuel(m, *left, d, max, g1, g2);
                lemma_nested_fuel(m, *right, d, max, g1, g2);
            },
            ExprV::Unary { op, operand } => lemma_nested_fuel(m, *operand, d, max, g1, g2),
            ExprV::MethodCall { object, method, args, generic_args } => {
                lemma_nested_fuel(m, *object, d, max, g1, g2);
                lemma_all_fuel(m, args, d, max, g1, g2);
            },
            ExprV::MemberAccess { object, member } => lemma_nested_fuel(m, *object, d, max, g1, g2),
            ExprV::ArrayIndex { array, index } => {
                lemma_nested_fuel(m, *array, d, max, g1, g2);
                lemma_nested_fuel(m, *index, d, max, g1, g2);
            },
            ExprV::ArrayLiteral(items) => lemma_all_fuel(m, items, d, max, g1, g2),
            ExprV::StructLiteral { name, fields } => lemma_fields_fuel(m, fields, d, max, g1, g2),
            ExprV::Cast { expr, target } => lemma_nested_fuel(m, *expr, d, max, g1, g2),
            ExprV::Assignment { target, value } => {
                lemma_nested_fuel(m, *target, d, max, g1, g2);
                lemma_nested_fuel(m, *value, d, max, g1, g2);
            },
            ExprV::IndirectCall { callee, args } => {
                lemma_nested_fuel(m, *callee, d, max, g1, g2);
                lemma_all_fuel(m, args, d, max, g1, g2);
            },
            _ => {},
        }
    }
}

proof fn lemma_all_fuel(m: MacroTable, s: Seq<ExprV>, d: int, max: int, f1: nat, f2: nat)
    requires
        all_f(m, s, d, max, f1) is Some,
        f1 <= f2,
    ensures
        all_f(m, s, d, max, f2) == all_f(m, s, d, max, f1),
    decreases f1, (s.len() + 1) as nat,
{
    if s.len() > 0 {
        lemma_all_fuel(m, s.drop_last(), d, max, f1, f2);
        lemma_nested_fuel(m, s.last(), d, max, f1, f2);
    }
}

proof fn lemma_fields_fuel(m: MacroTable, s: Seq<(Seq<char>, ExprV)>, d: int, max: int, f1: nat, f2: nat)
    requires
        fields_f(m, s, d, max, f1) is Some,
        f1 <= f2,
    ensures
        fields_f(m, s, d, max, f2) == fields_f(m, s, d, max, f1),
    decreases f1, (s.len() + 1) as nat,
{
    if s.len() > 0 {
        lemma_fields_fuel(m, s.drop_last(), d, max, f1, f2);
        lemma_nested_fuel(m, s.last().1, d, max, f1, f2);
    }
}

/// Expansion does not depend on how many steps it is allowed: any two
/// step counts with which expanding a macro call comes to an end give the
/// same result, so `call_expansion` is that result.
pub proof fn lemma_call_expansion_unique(m: MacroTable, name: Seq<char>, args: Seq<ExprV>, d: int, max: int, fuel: nat)
    requires
        try_expand_f(m, name, args, d, max, fuel) is Some,
    ensures
        call_expansion(m, name, args, d, max) == try_expand_f(m, name, args, d, max, fuel)->0,
{
    let c = choose|f: nat| #[trigger] try_expand_f(m, name, args, d, max, f) is Some;
    assert(try_expand_f(m, name, args, d, max, c) is Some);
    if c <= fuel {
        lemma_try_fuel(m, name, args, d, max, c, fuel);
    } else {
        lemma_try_fuel(m, name, args, d, max, fuel, c);
    }
}

/// Expanding the macro calls of an expression does not depend on how many
/// steps it is allowed, once it comes to an end.
pub proof fn lemma_nested_expansion_unique(m: MacroTable, e: ExprV, d: int, max: int, fuel: nat)
    requires
        nested_f(m, e, d, max, fuel) is Some,
    ensures
        nested_f(m, e, d, max, fuel) == Some(nested_expansion(m, e, d, max)),
{
    let c = choose|f: nat| #[trigger] nested_f(m, e, d, max, f) is Some;
    assert(nested_f(m, e, d, max, c) is Some);
    if c <= fuel {
        lemma_nested_fuel(m, e, d, max, c, fuel);
    } else {
        lemma_nested_fuel(m, e, d, max, fuel, c);
    }
}

proof fn lemma_all_prefix(m: MacroTable, s: Seq<ExprV>, d: int, max: int, fuel: nat, i: int)
    requires
        all_f(m, s, d, max, fuel) is Some,
        0 <= i <= s.len(),
    ensures
        all_f(m, s.take(i), d, max, fuel) is Some,
        i < s.len() ==> nested_f(m, s[i], d, max, fuel) is Some,
    decreases s.len(),
{
    if i == s.len() {
        assert(s.take(i) =~= s);
    } else {
        lemma_all_prefix(m, s.drop_last(), d, max, fuel, i);
        assert(s.drop_last().take(i) =~= s.take(i));
        if i == s.len() - 1 {
            assert(s[i] == s.last());
        } else {
            assert(s.drop_last()[i] == s[i]);
        }
    }
}

proof fn lemma_fields_prefix(m: MacroTable, s: Seq<(Seq<char>, ExprV)>, d: int, max: int, fuel: nat, i: int)
    requires
        fields_f(m, s, d, max, fuel) is Some,
        0 <= i <= s.len(),
    ensures
        fields_f(m, s.take(i), d, max, fuel) is Some,
        i < s.len() ==> nested_f(m, s[i].1, d, max, fuel) is Some,
    decreases s.len(),
{
    if i == s.len() {
        assert(s.take(i) =~= s);
    } else {
        lemma_fields_prefix(m, s.drop_last(), d, max, fuel, i);
        assert(s.drop_last().take(i) =~= s.take(i));
        if i == s.len() - 1 {
            assert(s[i] == s.last());
        } else {
            assert(s.drop_last()[i] == s[i]);
        }
    }
}

proof fn lemma_inits_view_index(s: Seq<(String, IRExpr)>)
    ensures
        inits_view(s).len() == s.len(),
        forall|i: int| 0 <= i < s.len() ==> #[trigger] inits_view(s)[i] == (s[i].0@, expr_view(s[i].1)),
    decreases s.len(),
{
    if s.len() > 0 {
        lemma_inits_view_index(s.drop_last());
        assert forall|i: int| 0 <= i < s.len() implies #[trigger] inits_view(s)[i] == (s[i].0@, expr_view(s[i].1)) by {
            if i < s.len() - 1 {
                assert(inits_view(s.drop_last())[i] == (s.drop_last()[i].0@, expr_view(s.drop_last()[i].1)));
            }
        }
    }
}

// ==================== generic scopes ====================

/// The scope of generic parameters `params`: each stands for the struct
/// type of its own name.
pub open spec fn generic_bindings(params: Seq<Seq<char>>) -> Map<Seq<char>, TypeView>
    decreases params.len(),
{
    if params.len() == 0 {
        Map::empty()
    } else {
        generic_bindings(params.drop_last()).insert(params.last(), TypeView::Struct(params.last()))
    }
}

/// What `name` stands for in the innermost generic scope that has it.
pub open spec fn generic_lookup(scopes: Seq<Map<Seq<char>, TypeView>>, name: Seq<char>) -> Option<TypeView>
    decreases scopes.len(),
{
    if scopes.len() == 0 {
        None
    } else if scopes.last().contains_key(name) {
        Some(scopes.last()[name])
    } else {
        generic_lookup(scopes.drop_last(), name)
    }
}

// ==================== the builder ====================

/// The builder's state while it lowers a program.
pub struct IRBuilder {
    ir: GobolIR,
    expr_stack: Vec<IRExpr>,
    generic_stack: Vec<Table<DataType>>,
    structs: Table<IRStruct>,
    methods: Table<Vec<IRFunction>>,
    current_block: Vec<IRStmt>,
    var_types: Table<DataType>,
    current_struct: Option<String>,
    current_function: Option<String>,
    current_function_return: DataType,
    current_ir_function: Option<IRFunction>,
    in_function: bool,
    in_impl: bool,
    errors: Vec<String>,
    expand_functions: Table<(Vec<String>, IRBlock)>,
    current_file: String,
}

impl IRBuilder {
    /// The `#[expand]` functions recorded so far.
    pub closed spec fn macros(&self) -> MacroTable {
        self.expand_functions@.map_values(
            |d: (Vec<String>, IRBlock)| (strings_view(d.0@), stmts_view(d.1.statements@)),
        )
    }

    /// A builder with nothing recorded.
    pub fn new() -> (b: IRBuilder)
        ensures
            b.macros() == MacroTable::empty(),
            b.generic_scopes() == Seq::<Map<Seq<char>, TypeView>>::empty(),
            b.lowered_structs() == Seq::<StructV>::empty(),
            b.lowered_impls() == Seq::<(Seq<char>, Seq<Seq<char>>, Seq<FunctionV>, Seq<Seq<char>>)>::empty(),
            b.struct_table() == Map::<Seq<char>, StructV>::empty(),
            b.method_table() == Map::<Seq<char>, Seq<FunctionV>>::empty(),
            b.lowered_functions() == Seq::<FunctionV>::empty(),
            b.block() == Seq::<StmtV>::empty(),
            b.var_type_table() == Map::<Seq<char>, TypeView>::empty(),
            b.pending_exprs() == Seq::<ExprV>::empty(),
    {
        let b = IRBuilder {
            ir: GobolIR { functions: Vec::new(), structs: Vec::new(), impls: Vec::new(), main_function: None },
            expr_stack: Vec::new(),
            generic_stack: Vec::new(),
            structs: Table::new(),
            methods: Table::new(),
            current_block: Vec::new(),
            var_types: Table::new(),
            current_struct: None,
            current_function: None,
            current_function_return: DataType::None_,
            current_ir_function: None,
            in_function: false,
            in_impl: false,
            errors: Vec::new(),
            expand_functions: Table::new(),
            current_file: String::new(),
        };
        assert(b.macros() =~= MacroTable::empty());
        assert(b.generic_scopes() =~= Seq::<Map<Seq<char>, TypeView>>::empty());
        assert(b.lowered_structs() =~= Seq::<StructV>::empty());
        assert(b.lowered_impls() =~= Seq::<(Seq<char>, Seq<Seq<char>>, Seq<FunctionV>, Seq<Seq<char>>)>::empty());
        assert(b.struct_table() =~= Map::<Seq<char>, StructV>::empty());
        assert(b.method_table() =~= Map::<Seq<char>, Seq<FunctionV>>::empty());
        assert(b.lowered_functions() =~= Seq::<FunctionV>::empty());
        assert(b.block() =~= Seq::<StmtV>::empty());
        assert(b.var_type_table() =~= Map::<Seq<char>, TypeView>::empty());
        assert(b.pending_exprs() =~= Seq::<ExprV>::empty());
        b
    }

    /// Records an `#[expand]` function, its body already lowered; a later
    /// record under the same name replaces an earlier one.
    pub fn register_expand_function(&mut self, name: String, params: Vec<String>, body: IRBlock)
        ensures
            final(self).macros() == old(self).macros().insert(
                name@,
                (strings_view(params@), stmts_view(body.statements@)),
            ),
    {
        let ghost entry = (strings_view(params@), stmts_view(body.statements@));
        self.expand_functions.insert(name, (params, body));
        assert(self.macros() =~= old(self).macros().insert(name@, entry));
    }

    /// The expression a macro body yields (see `result_expr`).
    pub fn expand_result_expr(&self, block: &IRBlock) -> (r: Option<IRExpr>)
        ensures
            match r {
                Some(e) => result_expr(stmts_view(block.statements@)) == Some(expr_view(e)),
                None => result_expr(stmts_view(block.statements@)) is None,
            },
    {
        let s = &block.statements;
        let ghost sv = stmts_view(s@);
        proof {
            lemma_stmts_view_index(s@);
        }
        let mut i: usize = 0;
        while i < s.len()
            invariant
                i <= s@.len(),
                s@ == block.statements@,
                sv == stmts_view(s@),
                sv.len() == s@.len(),
                forall|k: int| 0 <= k < s@.len() ==> #[trigger] sv[k] == stmt_view(s@[k]),
                first_return(sv, 0) == first_return(sv, i as int),
            decreases s@.len() - i,
        {
            match &s[i] {
                IRStmt::Return(Some(e)) => {
                    assert(sv[i as int] == stmt_view(s@[i as int]));
                    assert(sv[i as int] == StmtV::Return(Some(expr_view(*e))));
                    assert(first_return(sv, i as int) == Some(expr_view(*e)));
                    return Some(clone_expr(e));
                },
                _ => {},
            }
            i = i + 1;
        }
        let mut j: usize = s.len();
        assert(sv.take(j as int) =~= sv);
        while j > 0
            invariant
                j <= s@.len(),
                s@ == block.statements@,
                sv == stmts_view(s@),
                sv.len() == s@.len(),
                forall|k: int| 0 <= k < s@.len() ==> #[trigger] sv[k] == stmt_view(s@[k]),
                first_return(sv, 0) is None,
                last_expression(sv) == last_expression(sv.take(j as int)),
            decreases j,
        {
            assert(sv.take(j as int).last() == sv[j - 1]);
            assert(sv.take(j as int).drop_last() =~= sv.take(j - 1));
            match &s[j - 1] {
                IRStmt::Expression(e) => {
                    assert(sv[j - 1] == StmtV::Expression(expr_view(*e)));
                    assert(last_expression(sv.take(j as int)) == Some(expr_view(*e)));
                    return Some(clone_expr(e));
                },
                _ => {},
            }
            j = j - 1;
        }
        None
    }

    /// The value bound to `name` (see `bound_value`).
    fn bound_arg(params: &Vec<String>, args: &Vec<IRExpr>, name: &str) -> (r: Option<IRExpr>)
        requires
            params@.len() == args@.len(),
        ensures
            match r {
                Some(e) => bound_value(strings_view(params@), exprs_view(args@), name@) == Some(expr_view(e)),
                None => bound_value(strings_view(params@), exprs_view(args@), name@) is None,
            },
    {
        let ghost ps = strings_view(params@);
        let ghost vs = exprs_view(args@);
        proof {
            lemma_exprs_view_index(args@);
            lemma_strings_view_index(params@);
        }
        let mut j: usize = params.len();
        assert(ps.take(j as int) =~= ps);
        while j > 0
            invariant
                j <= params@.len(),
                params@.len() == args@.len(),
                ps == strings_view(params@),
                vs == exprs_view(args@),
                ps.len() == params@.len(),
                vs.len() == args@.len(),
                forall|k: int| 0 <= k < params@.len() ==> #[trigger] ps[k] == params@[k]@,
                forall|k: int| 0 <= k < args@.len() ==> #[trigger] vs[k] == expr_view(args@[k]),
                bound_value(ps, vs, name@) == bound_value(ps.take(j as int), vs, name@),
            decreases j,
        {
            assert(ps.take(j as int).last() == ps[j - 1]);
            assert(ps.take(j as int).drop_last() =~= ps.take(j - 1));
            if str_eq(params[j - 1].as_str(), name) {
                assert(vs[j - 1] == expr_view(args@[j - 1]));
                return Some(clone_expr(&args[j - 1]));
            }
            j = j - 1;
        }
        None
    }

    /// `expr` with each parameter replaced by its argument (see `subst`).
    pub fn subst_expr(&self, expr: &IRExpr, params: &Vec<String>, args: &Vec<IRExpr>) -> (r: IRExpr)
        requires
            params@.len() == args@.len(),
        ensures
            expr_view(r) == subst(expr_view(*expr), strings_view(params@), exprs_view(args@)),
        decreases expr, 0nat,
    {
        match expr {
            IRExpr::Variable(n) => match Self::bound_arg(params, args, n.as_str()) {
                Some(a) => a,
                None => clone_expr(expr),
            },
            IRExpr::Binary { op, left, right } => IRExpr::Binary {
                op: op.clone(),
                left: Box::new(self.subst_expr(&**left, params, args)),
                right: Box::new(self.subst_expr(&**right, params, args)),
            },
            IRExpr::Unary { op, operand } => IRExpr::Unary {
                op: op.clone(),
                operand: Box::new(self.subst_expr(&**operand, params, args)),
            },
            IRExpr::Call { func, args: a, generic_args } => IRExpr::Call {
                func: func.clone(),
                args: self.subst_exprs(a, params, args),
                generic_args: clone_types(generic_args),
            },
            IRExpr::MethodCall { object, method, args: a, generic_args } => IRExpr::MethodCall {
                object: Box::new(self.subst_expr(&**object, params, args)),
                method: method.clone(),
                args: self.subst_exprs(a, params, args),
                generic_args: clone_types(generic_args),
            },
            IRExpr::MemberAccess { object, member } => IRExpr::MemberAccess {
                object: Box::new(self.subst_expr(&**object, params, args)),
                member: member.clone(),
            },
            IRExpr::ArrayIndex { array, index } => IRExpr::ArrayIndex {
                array: Box::new(self.subst_expr(&**array, params, args)),
                index: Box::new(self.subst_expr(&**index, params, args)),
            },
            IRExpr::ArrayLiteral(items) => IRExpr::ArrayLiteral(self.subst_exprs(items, params, args)),
            IRExpr::StructLiteral { name, fields } => IRExpr::StructLiteral {
                name: name.clone(),
                fields: self.subst_inits(fields, params, args),
            },
            IRExpr::Cast { expr: inner, target } => IRExpr::Cast {
                expr: Box::new(self.subst_expr(&**inner, params, args)),
                target: target.clone(),
            },
            IRExpr::Assignment { target, value } => IRExpr::Assignment {
                target: Box::new(self.subst_expr(&**target, params, args)),
                value: Box::new(self.subst_expr(&**value, params, args)),
            },
            IRExpr::IndirectCall { callee, args: a } => IRExpr::IndirectCall {
                callee: Box::new(self.subst_expr(&**callee, params, args)),
                args: self.subst_exprs(a, params, args),
            },
            _ => clone_expr(expr),
        }
    }

    /// Each expression substituted (see `subst_all`).
    fn subst_exprs(&self, v: &Vec<IRExpr>, params: &Vec<String>, args: &Vec<IRExpr>) -> (r: Vec<IRExpr>)
        requires
            params@.len() == args@.len(),
        ensures
            exprs_view(r@) == subst_all(exprs_view(v@), strings_view(params@), exprs_view(args@)),
        decreases v, 1nat,
    {
        let ghost ps = strings_view(params@);
        let ghost vs = exprs_view(args@);
        let mut r: Vec<IRExpr> = Vec::new();
        let mut i: usize = 0;
        assert(v@.take(0) =~= Seq::<IRExpr>::empty());
        while i < v.len()
            invariant
                i <= v@.len(),
                params@.len() == args@.len(),
                ps == strings_view(params@),
                vs == exprs_view(args@),
                exprs_view(r@) == subst_all(exprs_view(v@.take(i as int)), ps, vs),
            decreases v@.len() - i,
        {
            proof {
                assert(decreases_to!(v => v@[i as int]));
            }
            let e = self.subst_expr(&v[i], params, args);
            proof {
                assert(r@.push(e).drop_last() =~= r@);
                assert(v@.take(i + 1).drop_last() =~= v@.take(i as int));
                assert(exprs_view(v@.take(i + 1)).drop_last() == exprs_view(v@.take(i as int)));
            }
            r.push(e);
            i = i + 1;
        }
        assert(v@.take(i as int) =~= v@);
        r
    }

    /// Each field initialiser substituted (see `subst_fields`).
    fn subst_inits(&self, v: &Vec<(String, IRExpr)>, params: &Vec<String>, args: &Vec<IRExpr>) -> (r: Vec<(String, IRExpr)>)
        requires
            params@.len() == args@.len(),
        ensures
            inits_view(r@) == subst_fields(inits_view(v@), strings_view(params@), exprs_view(args@)),
        decreases v, 1nat,
    {
        let ghost ps = strings_view(params@);
        let ghost vs = exprs_view(args@);
        let mut r: Vec<(String, IRExpr)> = Vec::new();
        let mut i: usize = 0;
        assert(v@.take(0) =~= Seq::<(String, IRExpr)>::empty());
        while i < v.len()
            invariant
                i <= v@.len(),
                params@.len() == args@.len(),
                ps == strings_view(params@),
                vs == exprs_view(args@),
                inits_view(r@) == subst_fields(inits_view(v@.take(i as int)), ps, vs),
            decreases v@.len() - i,
        {
            proof {
                assert(decreases_to!(v => v@[i as int].1));
            }
            let e = self.subst_expr(&v[i].1, params, args);
            let n = v[i].0.clone();
            proof {
                assert(r@.push((n, e)).drop_last() =~= r@);
                assert(v@.take(i + 1).drop_last() =~= v@.take(i as int));
                assert(inits_view(v@.take(i + 1)).drop_last() == inits_view(v@.take(i as int)));
            }
            r.push((n, e));
            i = i + 1;
        }
        assert(v@.take(i as int) =~= v@);
        r
    }
    /// Expands the macro call `name(args)` with `fuel` steps (see
    /// `try_expand_f`); `None` when the call is not expanded.
    fn try_expand(&self, name: &str, args: &Vec<IRExpr>, depth: usize, max_depth: usize, Ghost(fuel): Ghost<nat>) -> (r:
        Option<IRExpr>)
        requires
            try_expand_f(self.macros(), name@, exprs_view(args@), depth as int, max_depth as int, fuel) is Some,
        ensures
            match r {
                Some(x) => try_expand_f(self.macros(), name@, exprs_view(args@), depth as int, max_depth as int, fuel)
                    == Some(Some(expr_view(x))),
                None => try_expand_f(self.macros(), name@, exprs_view(args@), depth as int, max_depth as int, fuel)
                    == Some(Option::<ExprV>::None),
            },
        decreases fuel, 0nat,
    {
        if depth >= max_depth {
            return None;
        }
        let def = match self.expand_functions.get(name) {
            Some(d) => d,
            None => {
                return None;
            },
        };
        proof {
            lemma_exprs_view_index(args@);
            assert(self.macros()[name@] == (strings_view(def.0@), stmts_view(def.1.statements@)));
        }
        if def.0.len() != args.len() {
            return None;
        }
        let r = match self.expand_result_expr(&def.1) {
            Some(r) => r,
            None => {
                return None;
            },
        };
        let sub = self.subst_expr(&r, &def.0, args);
        let x = self.expand_nested(&sub, depth + 1, max_depth, Ghost((fuel - 1) as nat));
        Some(x)
    }

    /// `e` with its macro calls expanded with `fuel` steps (see `nested_f`).
    fn expand_nested(&self, e: &IRExpr, depth: usize, max_depth: usize, Ghost(fuel): Ghost<nat>) -> (r: IRExpr)
        requires
            nested_f(self.macros(), expr_view(*e), depth as int, max_depth as int, fuel) is Some,
        ensures
            nested_f(self.macros(), expr_view(*e), depth as int, max_depth as int, fuel) == Some(expr_view(r)),
        decreases fuel, 0nat,
    {
        if depth >= max_depth {
            return clone_expr(e);
        }
        let ghost f = (fuel - 1) as nat;
        match e {
            IRExpr::Call { func, args, generic_args } => {
                let new_args = self.expand_all(args, depth, max_depth, Ghost(f));
                match self.try_expand(func.as_str(), &new_args, depth, max_depth, Ghost(f)) {
                    Some(x) => self.expand_nested(&x, depth, max_depth, Ghost(f)),
                    None => IRExpr::Call { func: func.clone(), args: new_args, generic_args: clone_types(generic_args) },
                }
            },
            IRExpr::Binary { op, left, right } => {
                let l = self.expand_nested(&**left, depth, max_depth, Ghost(f));
                let r = self.expand_nested(&**right, depth, max_depth, Ghost(f));
                IRExpr::Binary { op: op.clone(), left: Box::new(l), right: Box::new(r) }
            },
            IRExpr::Unary { op, operand } => {
                let o = self.expand_nested(&**operand, depth, max_depth, Ghost(f));
                IRExpr::Unary { op: op.clone(), operand: Box::new(o) }
            },
            IRExpr::MethodCall { object, method, args, generic_args } => {
                let o = self.expand_nested(&**object, depth, max_depth, Ghost(f));
                let a = self.expand_all(args, depth, max_depth, Ghost(f));
                IRExpr::MethodCall { object: Box::new(o), method: method.clone(), args: a, generic_args: clone_types(generic_args) }
            },
            IRExpr::MemberAccess { object, member } => {
                let o = self.expand_nested(&**object, depth, max_depth, Ghost(f));
                IRExpr::MemberAccess { object: Box::new(o), member: member.clone() }
            },
            IRExpr::ArrayIndex { array, index } => {
                let a = self.expand_nested(&**array, depth, max_depth, Ghost(f));
                let i = self.expand_nested(&**index, depth, max_depth, Ghost(f));
                IRExpr::ArrayIndex { array: Box::new(a), index: Box::new(i) }
            },
            IRExpr::ArrayLiteral(items) => IRExpr::ArrayLiteral(self.expand_all(items, depth, max_depth, Ghost(f))),
            IRExpr::StructLiteral { name, fields } => IRExpr::StructLiteral {
                name: name.clone(),
                fields: self.expand_fields(fields, depth, max_depth, Ghost(f)),
            },
            IRExpr::Cast { expr: inner, target } => {
                let x = self.expand_nested(&**inner, depth, max_depth, Ghost(f));
                IRExpr::Cast { expr: Box::new(x), target: target.clone() }
            },
            IRExpr::Assignment { target, value } => {
                let t = self.expand_nested(&**target, depth, max_depth, Ghost(f));
                let v = self.expand_nested(&**value, depth, max_depth, Ghost(f));
                IRExpr::Assignment { target: Box::new(t), value: Box::new(v) }
            },
            IRExpr::IndirectCall { callee, args } => {
                let c = self.expand_nested(&**callee, depth, max_depth, Ghost(f));
                let a = self.expand_all(args, depth, max_depth, Ghost(f));
                IRExpr::IndirectCall { callee: Box::new(c), args: a }
            },
            _ => clone_expr(e),
        }
    }

    /// Each expression expanded with the same fuel (see `all_f`).
    fn expand_all(&self, v: &Vec<IRExpr>, depth: usize, max_depth: usize, Ghost(fuel): Ghost<nat>) -> (r: Vec<IRExpr>)
        requires
            all_f(self.macros(), exprs_view(v@), depth as int, max_depth as int, fuel) is Some,
        ensures
            all_f(self.macros(), exprs_view(v@), depth as int, max_depth as int, fuel) == Some(exprs_view(r@)),
        decreases fuel, (v@.len() + 1) as nat,
    {
        let ghost m = self.macros();
        let ghost sv = exprs_view(v@);
        proof {
            lemma_exprs_view_index(v@);
        }
        let mut r: Vec<IRExpr> = Vec::new();
        let mut i: usize = 0;
        assert(sv.take(0) =~= Seq::<ExprV>::empty());
        while i < v.len()
            invariant
                i <= v@.len(),
                m == self.macros(),
                sv == exprs_view(v@),
                sv.len() == v@.len(),
                forall|k: int| 0 <= k < v@.len() ==> #[trigger] sv[k] == expr_view(v@[k]),
                all_f(m, sv, depth as int, max_depth as int, fuel) is Some,
                all_f(m, sv.take(i as int), depth as int, max_depth as int, fuel) == Some(exprs_view(r@)),
            decreases v@.len() - i,
        {
            proof {
                lemma_all_prefix(m, sv, depth as int, max_depth as int, fuel, i as int);
                assert(sv[i as int] == expr_view(v@[i as int]));
            }
            let x = self.expand_nested(&v[i], depth, max_depth, Ghost(fuel));
            proof {
                assert(sv.take(i + 1).drop_last() =~= sv.take(i as int));
                assert(sv.take(i + 1).last() == sv[i as int]);
                assert(r@.push(x).drop_last() =~= r@);
            }
            r.push(x);
            i = i + 1;
        }
        assert(sv.take(i as int) =~= sv);
        r
    }

    /// Each field initialiser expanded with the same fuel (see `fields_f`).
    fn expand_fields(&self, v: &Vec<(String, IRExpr)>, depth: usize, max_depth: usize, Ghost(fuel): Ghost<nat>) -> (r: Vec<
        (String, IRExpr),
    >)
        requires
            fields_f(self.macros(), inits_view(v@), depth as int, max_depth as int, fuel) is Some,
        ensures
            fields_f(self.macros(), inits_view(v@), depth as int, max_depth as int, fuel) == Some(inits_view(r@)),
        decreases fuel, (v@.len() + 1) as nat,
    {
        let ghost m = self.macros();
        let ghost sv = inits_view(v@);
        proof {
            lemma_inits_view_index(v@);
        }
        let mut r: Vec<(String, IRExpr)> = Vec::new();
        let mut i: usize = 0;
        assert(sv.take(0) =~= Seq::<(Seq<char>, ExprV)>::empty());
        while i < v.len()
            invariant
                i <= v@.len(),
                m == self.macros(),
                sv == inits_view(v@),
                sv.len() == v@.len(),
                forall|k: int| 0 <= k < v@.len() ==> #[trigger] sv[k] == (v@[k].0@, expr_view(v@[k].1)),
                fields_f(m, sv, depth as int, max_depth as int, fuel) is Some,
                fields_f(m, sv.take(i as int), depth as int, max_depth as int, fuel) == Some(inits_view(r@)),
            decreases v@.len() - i,
        {
            proof {
                lemma_fields_prefix(m, sv, depth as int, max_depth as int, fuel, i as int);
                assert(sv[i as int] == (v@[i as int].0@, expr_view(v@[i as int].1)));
            }
            let x = self.expand_nested(&v[i].1, depth, max_depth, Ghost(fuel));
            let n = v[i].0.clone();
            proof {
                assert(sv.take(i + 1).drop_last() =~= sv.take(i as int));
                assert(sv.take(i + 1).last() == sv[i as int]);
                assert(r@.push((n, x)).drop_last() =~= r@);
            }
            r.push((n, x));
            i = i + 1;
        }
        assert(sv.take(i as int) =~= sv);
        r
    }

    /// Expands the macro call `name(args)` at depth `depth` (see
    /// `call_expansion`): `None` when the call is not expanded. Expansion
    /// must come to an end: a macro whose expansion keeps producing calls
    /// of itself below the depth limit never finishes.
    pub fn try_expand_call_ast_depth(&self, name: &str, args: &Vec<IRExpr>, depth: usize, max_depth: usize) -> (r:
        Option<IRExpr>)
        requires
            call_expands(self.macros(), name@, exprs_view(args@), depth as int, max_depth as int),
        ensures
            match r {
                Some(x) => call_expansion(self.macros(), name@, exprs_view(args@), depth as int, max_depth as int) == Some(
                    expr_view(x),
                ),
                None => call_expansion(self.macros(), name@, exprs_view(args@), depth as int, max_depth as int) is None,
            },
    {
        let ghost fuel = choose|fuel: nat|
            #[trigger] try_expand_f(self.macros(), name@, exprs_view(args@), depth as int, max_depth as int, fuel) is Some;
        self.try_expand(name, args, depth, max_depth, Ghost(fuel))
    }

    /// Expands the macro call `name(args)` from the top, with macro calls
    /// nested at most 32 deep (see `try_expand_call_ast_depth`).
    pub fn try_expand_call_ast(&self, name: &str, args: &Vec<IRExpr>) -> (r: Option<IRExpr>)
        requires
            call_expands(self.macros(), name@, exprs_view(args@), 0, 32),
        ensures
            match r {
                Some(x) => call_expansion(self.macros(), name@, exprs_view(args@), 0, 32) == Some(expr_view(x)),
                None => call_expansion(self.macros(), name@, exprs_view(args@), 0, 32) is None,
            },
    {
        self.try_expand_call_ast_depth(name, args, 0, 32)
    }

    /// `expr` with its macro calls expanded at depth `depth` (see
    /// `nested_expansion`); expansion must come to an end.
    pub fn expand_nested_macros(&self, expr: &IRExpr, depth: usize, max_depth: usize) -> (r: IRExpr)
        requires
            nested_expands(self.macros(), expr_view(*expr), depth as int, max_depth as int),
        ensures
            expr_view(r) == nested_expansion(self.macros(), expr_view(*expr), depth as int, max_depth as int),
    {
        let ghost fuel = choose|fuel: nat|
            #[trigger] nested_f(self.macros(), expr_view(*expr), depth as int, max_depth as int, fuel) is Some;
        self.expand_nested(expr, depth, max_depth, Ghost(fuel))
    }

    /// The source file `file()` names inside `#[expand]` functions.
    pub closed spec fn file(&self) -> Seq<char> {
        self.current_file@
    }

    /// The expressions lowered and not yet consumed, innermost last.
    pub closed spec fn pending_exprs(&self) -> Seq<ExprV> {
        exprs_view(self.expr_stack@)
    }

    /// The generic parameters in scope, outermost scope first.
    pub closed spec fn generic_scopes(&self) -> Seq<Map<Seq<char>, TypeView>> {
        self.generic_stack@.map_values(|t: Table<DataType>| t@.map_values(|d: DataType| d@))
    }

    /// The errors reported so far.
    pub closed spec fn error_texts(&self) -> Seq<Seq<char>> {
        strings_view(self.errors@)
    }

    /// Sets the source file `file()` names.
    pub fn set_current_file(&mut self, file: String)
        ensures
            final(self).file() == file@,
            final(self).macros() == old(self).macros(),
            final(self).pending_exprs() == old(self).pending_exprs(),
            final(self).generic_scopes() == old(self).generic_scopes(),
            final(self).error_texts() == old(self).error_texts(),
    {
        self.current_file = file;
    }

    /// Pushes a lowered expression.
    pub fn push_expr(&mut self, expr: IRExpr)
        ensures
            final(self).pending_exprs() == old(self).pending_exprs().push(expr_view(expr)),
            final(self).macros() == old(self).macros(),
            final(self).block() == old(self).block(),
            final(self).var_type_table() == old(self).var_type_table(),
            final(self).lowered_structs() == old(self).lowered_structs(),
            final(self).lowered_impls() == old(self).lowered_impls(),
            final(self).lowered_functions() == old(self).lowered_functions(),
            final(self).struct_table() == old(self).struct_table(),
            final(self).method_table() == old(self).method_table(),
            final(self).generic_scopes() == old(self).generic_scopes(),
    {
        self.expr_stack.push(expr);
        assert(self.expr_stack@.drop_last() =~= old(self).expr_stack@);
    }

    /// Takes the last lowered expression; the empty expression when there
    /// is none.
    pub fn pop_expr(&mut self) -> (e: IRExpr)
        ensures
            old(self).pending_exprs().len() == 0 ==> expr_view(e) == ExprV::Empty,
            old(self).pending_exprs().len() == 0 ==> final(self).pending_exprs() == old(self).pending_exprs(),
            old(self).pending_exprs().len() > 0 ==> expr_view(e) == old(self).pending_exprs().last(),
            old(self).pending_exprs().len() > 0 ==> final(self).pending_exprs() == old(self).pending_exprs().drop_last(),
            final(self).macros() == old(self).macros(),
            final(self).block() == old(self).block(),
            final(self).var_type_table() == old(self).var_type_table(),
            final(self).lowered_structs() == old(self).lowered_structs(),
            final(self).lowered_impls() == old(self).lowered_impls(),
            final(self).lowered_functions() == old(self).lowered_functions(),
            final(self).struct_table() == old(self).struct_table(),
            final(self).method_table() == old(self).method_table(),
            final(self).generic_scopes() == old(self).generic_scopes(),
    {
        proof {
            lemma_exprs_view_index(self.expr_stack@);
        }
        match self.expr_stack.pop() {
            Some(e) => {
                assert(self.expr_stack@ =~= old(self).expr_stack@.drop_last());
                assert(old(self).expr_stack@.drop_last().push(e) =~= old(self).expr_stack@);
                e
            },
            None => IRExpr::Empty,
        }
    }

    /// Enters a scope in which each of `params` is a generic parameter,
    /// standing for the struct type of its own name.
    pub fn push_generic_scope(&mut self, params: &Vec<String>)
        ensures
            final(self).generic_scopes() == old(self).generic_scopes().push(generic_bindings(strings_view(params@))),
            final(self).macros() == old(self).macros(),
            final(self).lowered_structs() == old(self).lowered_structs(),
            final(self).lowered_impls() == old(self).lowered_impls(),
            final(self).struct_table() == old(self).struct_table(),
            final(self).method_table() == old(self).method_table(),
            final(self).block() == old(self).block(),
            final(self).pending_exprs() == old(self).pending_exprs(),
            final(self).lowered_functions() == old(self).lowered_functions(),
            final(self).impl_type() == old(self).impl_type(),
            final(self).var_type_table() == old(self).var_type_table(),
            final(self).lowering_function() == old(self).lowering_function(),
            final(self).function_name() == old(self).function_name(),
            final(self).function_return() == old(self).function_return(),
            final(self).in_function_body() == old(self).in_function_body(),
            final(self).in_impl_block() == old(self).in_impl_block(),
            final(self).main_name() == old(self).main_name(),
    {
        let mut bindings: Table<DataType> = Table::new();
        let mut i: usize = 0;
        proof {
            lemma_strings_view_index(params@);
        }
        while i < params.len()
            invariant
                i <= params@.len(),
                strings_view(params@).len() == params@.len(),
                forall|k: int| 0 <= k < params@.len() ==> #[trigger] strings_view(params@)[k] == params@[k]@,
                bindings@.map_values(|d: DataType| d@) == generic_bindings(strings_view(params@).take(i as int)),
            decreases params@.len() - i,
        {
            let p = params[i].clone();
            let ghost name = p@;
            bindings.insert(p, DataType::Struct(params[i].clone()));
            proof {
                assert(strings_view(params@).take(i + 1).drop_last() =~= strings_view(params@).take(i as int));
                assert(strings_view(params@).take(i + 1).last() == name);
                assert(bindings@.map_values(|d: DataType| d@) =~= generic_bindings(strings_view(params@).take(i + 1)));
            }
            i = i + 1;
        }
        assert(strings_view(params@).take(i as int) =~= strings_view(params@));
        self.generic_stack.push(bindings);
        assert(self.generic_scopes() =~= old(self).generic_scopes().push(generic_bindings(strings_view(params@))));
    }

    /// Leaves the innermost generic scope, if there is one.
    pub fn pop_generic_scope(&mut self)
        ensures
            final(self).generic_scopes() == if old(self).generic_scopes().len() > 0 {
                old(self).generic_scopes().drop_last()
            } else {
                old(self).generic_scopes()
            },
            final(self).macros() == old(self).macros(),
            final(self).lowered_structs() == old(self).lowered_structs(),
            final(self).lowered_impls() == old(self).lowered_impls(),
            final(self).struct_table() == old(self).struct_table(),
            final(self).method_table() == old(self).method_table(),
    {
        if self.generic_stack.len() > 0 {
            self.generic_stack.pop();
            assert(self.generic_scopes() =~= old(self).generic_scopes().drop_last());
        }
    }

    /// What a generic parameter in scope stands for (see `generic_lookup`).
    pub fn lookup_generic(&self, name: &str) -> (r: Option<DataType>)
        ensures
            match r {
                Some(t) => generic_lookup(self.generic_scopes(), name@) == Some(t@),
                None => generic_lookup(self.generic_scopes(), name@) is None,
            },
    {
        let ghost gs = self.generic_scopes();
        let mut j: usize = self.generic_stack.len();
        assert(gs.take(j as int) =~= gs);
        while j > 0
            invariant
                j <= self.generic_stack@.len(),
                gs == self.generic_scopes(),
                gs.len() == self.generic_stack@.len(),
                generic_lookup(gs, name@) == generic_lookup(gs.take(j as int), name@),
            decreases j,
        {
            assert(gs.take(j as int).drop_last() =~= gs.take(j - 1));
            assert(gs.take(j as int).last() == gs[j - 1]);
            assert(gs[j - 1] == self.generic_stack@[j - 1]@.map_values(|d: DataType| d@));
            match self.generic_stack[j - 1].get(name) {
                Some(t) => {
                    return Some(t.clone());
                },
                None => {},
            }
            j = j - 1;
        }
        None
    }

    /// Whether `name` is among the attributes.
    pub fn has_attr(attrs: &Vec<String>, name: &str) -> (r: bool)
        ensures
            r == strings_view(attrs@).contains(name@),
    {
        proof {
            lemma_strings_view_index(attrs@);
        }
        let mut i: usize = 0;
        while i < attrs.len()
            invariant
                i <= attrs@.len(),
                strings_view(attrs@).len() == attrs@.len(),
                forall|k: int| 0 <= k < attrs@.len() ==> #[trigger] strings_view(attrs@)[k] == attrs@[k]@,
                forall|k: int| 0 <= k < i ==> attrs@[k]@ != name@,
            decreases attrs@.len() - i,
        {
            if str_eq(attrs[i].as_str(), name) {
                assert(strings_view(attrs@)[i as int] == name@);
                return true;
            }
            i = i + 1;
        }
        false
    }

    /// Reports an error.
    pub fn error(&mut self, msg: &str)
        ensures
            final(self).error_texts() == old(self).error_texts().push(msg@),
            final(self).macros() == old(self).macros(),
    {
        self.errors.push(msg.to_string());
        assert(self.error_texts() =~= old(self).error_texts().push(msg@));
    }

    /// The trait method an operator is written as (see `operator_method`);
    /// logical and bitwise operators have none and stay binary.
    pub fn operator_to_method(op: &str) -> (r: Option<&'static str>)
        ensures
            match r {
                Some(m) => operator_method(op@) == Some(m@),
                None => operator_method(op@) is None,
            },
    {
        SemanticAnalyzer::operator_to_method(op)
    }

}

// ==================== lowering definitions ====================

/// A struct definition as a mathematical value: its name, generic
/// parameters, fields with their types, and attributes.
pub type StructV = (Seq<char>, Seq<Seq<char>>, Seq<(Seq<char>, TypeView)>, Seq<Seq<char>>);

/// A struct definition's view.
pub open spec fn struct_view(s: IRStruct) -> StructV {
    (s.name@, strings_view(s.generic_params@), s.fields@.map_values(|f: IRField| (f.name@, f.ty@)), strings_view(s.attributes@))
}

/// The name a type annotation is written with: that of a plain or generic
/// type (an array, nullable or function type has none).
pub open spec fn type_node_name(t: TypeNode) -> Option<Seq<char>> {
    match t {
        TypeNode::Basic(n) => Some(n@),
        TypeNode::Generic { base, .. } => Some(base@),
        _ => None,
    }
}

/// The type an annotation denotes in the intermediate form, `scopes` being
/// the generic scopes: a name bound there stands for its binding; an array
/// of its element type; a function type is `unknown`; `vec<T>` is `T` and
/// another generic type the struct of its base name; a built-in name its
/// type (`none` included), and any other name a struct.
pub open spec fn ir_type(t: TypeNode, scopes: Seq<Map<Seq<char>, TypeView>>) -> TypeView
    decreases t,
{
    let bound = match type_node_name(t) {
        Some(n) => generic_lookup(scopes, n),
        None => None,
    };
    match bound {
        Some(b) => b,
        None => match t {
            TypeNode::Array { element, .. } => TypeView::Array(Box::new(ir_type(*element, scopes))),
            TypeNode::Function => TypeView::Unknown,
            TypeNode::Generic { base, args } => if base@ == "vec"@ && args@.len() > 0 {
                ir_type(args@[0], scopes)
            } else {
                TypeView::Struct(base@)
            },
            TypeNode::Nullable(inner) => TypeView::Nullable(Box::new(ir_type(*inner, scopes))),
            TypeNode::Basic(n) => if n@ == "int"@ {
                TypeView::Int
            } else if n@ == "float"@ {
                TypeView::Float
            } else if n@ == "bool"@ {
                TypeView::Bool
            } else if n@ == "str"@ {
                TypeView::Str
            } else if n@ == "none"@ {
                TypeView::None_
            } else {
                TypeView::Struct(n@)
            },
        },
    }
}

/// The type of an optional annotation (`none` without one).
pub open spec fn opt_ir_type(t: Option<Box<TypeNode>>, scopes: Seq<Map<Seq<char>, TypeView>>) -> TypeView {
    match t {
        Some(b) => ir_type(*b, scopes),
        None => TypeView::None_,
    }
}

/// The struct a struct definition is lowered to, its field types read with
/// its own generic parameters in scope.
pub open spec fn lowered_struct(node: StructDefinition, scopes: Seq<Map<Seq<char>, TypeView>>) -> StructV {
    let inner = scopes.push(generic_bindings(strings_view(node.generic_params@)));
    (
        node.name@,
        strings_view(node.generic_params@),
        node.fields@.map_values(|f: StructField| (f.name@, opt_ir_type(f.field_type, inner))),
        strings_view(node.attributes@),
    )
}

/// The fields an enum is lowered to: `_tag` (an int), then `_<i>` of the
/// payload's type for the i-th variant (from 0) that has a payload.
pub open spec fn enum_fields(variants: Seq<EnumVariant>, scopes: Seq<Map<Seq<char>, TypeView>>) -> Seq<(Seq<char>, TypeView)>
    decreases variants.len(),
{
    if variants.len() == 0 {
        seq![("_tag"@, TypeView::Int)]
    } else {
        let f = enum_fields(variants.drop_last(), scopes);
        match variants.last().payload_type {
            Some(p) => f.push(("_"@ + nat_digits((variants.len() - 1) as nat), ir_type(*p, scopes))),
            None => f,
        }
    }
}

/// The struct an enum is lowered to.
pub open spec fn lowered_enum(node: EnumDefinition, scopes: Seq<Map<Seq<char>, TypeView>>) -> StructV {
    let inner = scopes.push(generic_bindings(strings_view(node.generic_params@)));
    (node.name@, strings_view(node.generic_params@), enum_fields(node.variants@, inner), strings_view(node.attributes@))
}

/// The constructor method of the i-th variant of enum `name`: it sets
/// `self._tag` to i and, with a payload, `self._<i>` to its parameter
/// `_val` (an int), then returns `self`.
pub open spec fn variant_constructor(name: Seq<char>, generics: Seq<Seq<char>>, v: EnumVariant, i: nat) -> FunctionV {
    let this = ExprV::Variable("self"@);
    let tag = StmtV::Assignment {
        target: ExprV::MemberAccess { object: Box::new(this), member: "_tag"@ },
        value: ExprV::Literal(LitV::Int(i as i64)),
    };
    let payload = StmtV::Assignment {
        target: ExprV::MemberAccess { object: Box::new(this), member: "_"@ + nat_digits(i) },
        value: ExprV::Variable("_val"@),
    };
    let has = v.payload_type is Some;
    FunctionV {
        name: v.name@,
        generic_params: generics,
        params: if has {
            seq![("self"@, TypeView::Struct(name)), ("_val"@, TypeView::Int)]
        } else {
            seq![("self"@, TypeView::Struct(name))]
        },
        return_type: TypeView::Struct(name),
        body: Some(
            if has {
                seq![tag, payload, StmtV::Return(Some(this))]
            } else {
                seq![tag, StmtV::Return(Some(this))]
            },
        ),
        is_main: false,
        is_method: true,
        struct_name: Some(name),
        attributes: Seq::empty(),
        is_variadic: false,
    }
}

/// The constructors of an enum's variants, in order.
pub open spec fn variant_constructors(node: EnumDefinition) -> Seq<FunctionV> {
    Seq::new(
        node.variants@.len(),
        |i: int| variant_constructor(node.name@, strings_view(node.generic_params@), node.variants@[i], i as nat),
    )
}

/// The methods recorded for a type once `more` are added to them.
pub open spec fn with_methods(t: Map<Seq<char>, Seq<FunctionV>>, name: Seq<char>, more: Seq<FunctionV>) -> Map<Seq<char>, Seq<FunctionV>> {
    t.insert(name, if t.contains_key(name) {
        t[name] + more
    } else {
        more
    })
}

impl IRBuilder {
    /// The structs lowered so far, in order.
    pub closed spec fn lowered_structs(&self) -> Seq<StructV> {
        self.ir.structs@.map_values(|s: IRStruct| struct_view(s))
    }

    /// The `impl` blocks lowered so far, in order.
    pub closed spec fn lowered_impls(&self) -> Seq<(Seq<char>, Seq<Seq<char>>, Seq<FunctionV>, Seq<Seq<char>>)> {
        impls_view(self.ir.impls@)
    }

    /// The functions lowered so far, in order.
    pub closed spec fn lowered_functions(&self) -> Seq<FunctionV> {
        functions_view(self.ir.functions@)
    }

    /// The statements of the block being lowered.
    pub closed spec fn block(&self) -> Seq<StmtV> {
        stmts_view(self.current_block@)
    }

    /// The types of the variables of the function being lowered.
    pub closed spec fn var_type_table(&self) -> Map<Seq<char>, TypeView> {
        self.var_types@.map_values(|d: DataType| d@)
    }

    /// The lowered structs by name.
    pub closed spec fn struct_table(&self) -> Map<Seq<char>, StructV> {
        self.structs@.map_values(|s: IRStruct| struct_view(s))
    }

    /// The methods lowered for each type, in order.
    pub closed spec fn method_table(&self) -> Map<Seq<char>, Seq<FunctionV>> {
        self.methods@.map_values(|v: Vec<IRFunction>| functions_view(v@))
    }

    /// The type an annotation denotes in the intermediate form (see
    /// `ir_type`; `none` without one).
    pub fn ast_type_to_data_type(&self, ty: Option<&TypeNode>) -> (t: DataType)
        ensures
            t@ == match ty {
                Some(n) => ir_type(*n, self.generic_scopes()),
                None => TypeView::None_,
            },
    {
        match ty {
            Some(n) => self.node_type(n),
            None => DataType::None_,
        }
    }

    fn node_type(&self, node: &TypeNode) -> (t: DataType)
        ensures
            t@ == ir_type(*node, self.generic_scopes()),
        decreases node,
    {
        let name: Option<&String> = match node {
            TypeNode::Basic(n) => Some(n),
            TypeNode::Generic { base, .. } => Some(base),
            _ => None,
        };
        match name {
            Some(n) => match self.lookup_generic(n.as_str()) {
                Some(b) => {
                    return b;
                },
                None => {},
            },
            None => {},
        }
        match node {
            TypeNode::Array { element, .. } => DataType::Array(Box::new(self.node_type(&**element))),
            TypeNode::Function => DataType::Unknown,
            TypeNode::Generic { base, args } => {
                if str_eq(base.as_str(), "vec") && args.len() > 0 {
                    proof {
                        assert(decreases_to!(node => args@[0]));
                    }
                    self.node_type(&args[0])
                } else {
                    DataType::Struct(base.clone())
                }
            },
            TypeNode::Nullable(inner) => DataType::Nullable(Box::new(self.node_type(&**inner))),
            TypeNode::Basic(n) => {
                if str_eq(n.as_str(), "int") {
                    DataType::Int
                } else if str_eq(n.as_str(), "float") {
                    DataType::Float
                } else if str_eq(n.as_str(), "bool") {
                    DataType::Bool
                } else if str_eq(n.as_str(), "str") {
                    DataType::Str
                } else if str_eq(n.as_str(), "none") {
                    DataType::None_
                } else {
                    DataType::Struct(n.clone())
                }
            },
        }
    }

    /// Records a struct lowered to intermediate form.
    fn record_struct(&mut self, st: IRStruct)
        ensures
            final(self).struct_table() == old(self).struct_table().insert(st.name@, struct_view(st)),
            final(self).lowered_structs() == old(self).lowered_structs().push(struct_view(st)),
            final(self).lowered_impls() == old(self).lowered_impls(),
            final(self).method_table() == old(self).method_table(),
            final(self).generic_scopes() == old(self).generic_scopes(),
            final(self).macros() == old(self).macros(),
    {
        let copy = st.clone();
        assert(struct_view(copy) == struct_view(st));
        self.structs.insert(st.name.clone(), copy);
        self.ir.structs.push(st);
        assert(self.struct_table() =~= old(self).struct_table().insert(st.name@, struct_view(st)));
        assert(self.lowered_structs() =~= old(self).lowered_structs().push(struct_view(st)));
    }

    /// Lowers a struct definition (see `lowered_struct`) and records it.
    pub fn visit_struct_definition(&mut self, node: &StructDefinition)
        ensures
            ({
                let sv = lowered_struct(*node, old(self).generic_scopes());
                &&& final(self).struct_table() == old(self).struct_table().insert(node.name@, sv)
                &&& final(self).lowered_structs() == old(self).lowered_structs().push(sv)
            }),
            final(self).lowered_impls() == old(self).lowered_impls(),
            final(self).method_table() == old(self).method_table(),
            final(self).generic_scopes() == old(self).generic_scopes(),
            final(self).macros() == old(self).macros(),
    {
        let ghost gs = self.generic_scopes();
        self.push_generic_scope(&node.generic_params);
        let ghost inner = self.generic_scopes();
        let mut fields: Vec<IRField> = Vec::new();
        let mut i: usize = 0;
        while i < node.fields.len()
            invariant
                i <= node.fields@.len(),
                self.generic_scopes() == inner,
                inner == gs.push(generic_bindings(strings_view(node.generic_params@))),
                fields@.len() == i,
                forall|k: int| 0 <= k < i ==> (#[trigger] fields@[k]).name@ == node.fields@[k].name@
                    && fields@[k].ty@ == opt_ir_type(node.fields@[k].field_type, inner),
            decreases node.fields@.len() - i,
        {
            let f = &node.fields[i];
            let ty = match &f.field_type {
                Some(b) => self.ast_type_to_data_type(Some(&**b)),
                None => self.ast_type_to_data_type(None),
            };
            fields.push(IRField { name: f.name.clone(), ty });
            i = i + 1;
        }
        self.pop_generic_scope();
        assert(self.generic_scopes() =~= gs);
        let st = IRStruct {
            name: node.name.clone(),
            generic_params: clone_strings(&node.generic_params),
            fields,
            attributes: clone_strings(&node.attributes),
        };
        assert(struct_view(st) =~= lowered_struct(*node, gs));
        self.record_struct(st);
    }
}

/// `self.<member> = value`
fn assign_member(member: String, value: IRExpr) -> (st: IRStmt)
    ensures
        stmt_view(st) == (StmtV::Assignment {
            target: ExprV::MemberAccess { object: Box::new(ExprV::Variable("self"@)), member: member@ },
            value: expr_view(value),
        }),
{
    let target = IRExpr::MemberAccess { object: Box::new(IRExpr::Variable(owned("self"))), member };
    proof {
        reveal_with_fuel(expr_view, 2);
    }
    IRStmt::Assignment { target, value }
}

/// The constructor of the i-th variant of enum `name` (see
/// `variant_constructor`).
fn variant_constructor_exec(name: &String, generics: &Vec<String>, v: &EnumVariant, i: usize) -> (f: IRFunction)
    requires
        i <= i32::MAX,
    ensures
        function_view(f) == variant_constructor(name@, strings_view(generics@), *v, i as nat),
{
    let mut field = owned("_");
    append_nat(&mut field, i as u64);
    let tag = assign_member(owned("_tag"), IRExpr::Literal(LitValue::Int(i as i64)));
    let mut body: Vec<IRStmt> = Vec::new();
    body.push(tag);
    let has = v.payload_type.is_some();
    if has {
        let payload = assign_member(field, IRExpr::Variable(owned("_val")));
        body.push(payload);
    }
    let ret = IRStmt::Return(Some(IRExpr::Variable(owned("self"))));
    body.push(ret);
    let mut params: Vec<IRParam> = Vec::new();
    params.push(IRParam { name: owned("self"), ty: DataType::Struct(name.clone()) });
    if has {
        params.push(IRParam { name: owned("_val"), ty: DataType::Int });
    }
    let f = IRFunction {
        name: v.name.clone(),
        generic_params: clone_strings(generics),
        params,
        return_type: DataType::Struct(name.clone()),
        body: Some(IRBlock { statements: body }),
        is_main: false,
        is_method: true,
        struct_name: Some(name.clone()),
        attributes: Vec::new(),
        is_variadic: false,
    };
    proof {
        reveal_with_fuel(stmts_view, 4);
        let fv = function_view(f);
        let sv = variant_constructor(name@, strings_view(generics@), *v, i as nat);
        assert(fv.params =~= sv.params);
        assert(fv.attributes =~= sv.attributes);
        assert(fv.body->0 =~= sv.body->0);
    }
    f
}

impl IRBuilder {
    /// Lowers an enum definition: the tagged struct it becomes (see
    /// `lowered_enum`) is recorded, and a constructor for each variant (see
    /// `variant_constructors`) is added to the enum's methods and recorded
    /// as an `impl` block of the enum.
    pub fn visit_enum_definition(&mut self, node: &EnumDefinition)
        requires
            node.variants@.len() <= i32::MAX,
        ensures
            ({
                let sv = lowered_enum(*node, old(self).generic_scopes());
                let ctors = variant_constructors(*node);
                &&& final(self).struct_table() == old(self).struct_table().insert(node.name@, sv)
                &&& final(self).lowered_structs() == old(self).lowered_structs().push(sv)
                &&& final(self).method_table() == with_methods(old(self).method_table(), node.name@, ctors)
                &&& final(self).lowered_impls() == old(self).lowered_impls().push(
                    (node.name@, strings_view(node.generic_params@), ctors, Seq::<Seq<char>>::empty()),
                )
            }),
            final(self).generic_scopes() == old(self).generic_scopes(),
            final(self).macros() == old(self).macros(),
    {
        let ghost gs = self.generic_scopes();
        self.push_generic_scope(&node.generic_params);
        let ghost inner = self.generic_scopes();
        let mut fields: Vec<IRField> = Vec::new();
        fields.push(IRField { name: owned("_tag"), ty: DataType::Int });
        let mut i: usize = 0;
        assert(node.variants@.take(0) =~= Seq::<EnumVariant>::empty());
        assert(fields@.map_values(|f: IRField| (f.name@, f.ty@)) =~= enum_fields(node.variants@.take(0), inner));
        while i < node.variants.len()
            invariant
                i <= node.variants@.len(),
                self.generic_scopes() == inner,
                fields@.map_values(|f: IRField| (f.name@, f.ty@)) == enum_fields(node.variants@.take(i as int), inner),
            decreases node.variants@.len() - i,
        {
            assert(node.variants@.take(i + 1).drop_last() =~= node.variants@.take(i as int));
            assert(node.variants@.take(i + 1).last() == node.variants@[i as int]);
            match &node.variants[i].payload_type {
                Some(p) => {
                    let mut name = owned("_");
                    append_nat(&mut name, i as u64);
                    let ty = self.ast_type_to_data_type(Some(&**p));
                    let ghost before = fields@;
                    fields.push(IRField { name, ty });
                    assert(fields@.map_values(|f: IRField| (f.name@, f.ty@)) =~= before.map_values(
                        |f: IRField| (f.name@, f.ty@),
                    ).push(("_"@ + nat_digits(i as nat), ir_type(**p, inner))));
                },
                None => {},
            }
            i = i + 1;
        }
        assert(node.variants@.take(i as int) =~= node.variants@);
        let st = IRStruct {
            name: node.name.clone(),
            generic_params: clone_strings(&node.generic_params),
            fields,
            attributes: clone_strings(&node.attributes),
        };
        assert(struct_view(st) =~= lowered_enum(*node, gs));
        self.record_struct(st);
        self.pop_generic_scope();
        assert(self.generic_scopes() =~= gs);
        let ghost ctors = variant_constructors(*node);
        let mut list: Vec<IRFunction> = match self.methods.get(node.name.as_str()) {
            Some(existing) => clone_functions(existing),
            None => Vec::new(),
        };
        let ghost start = functions_view(list@);
        let mut made: Vec<IRFunction> = Vec::new();
        let mut j: usize = 0;
        while j < node.variants.len()
            invariant
                j <= node.variants@.len(),
                node.variants@.len() <= i32::MAX,
                ctors == variant_constructors(*node),
                functions_view(made@) == ctors.take(j as int),
                functions_view(list@) == start + ctors.take(j as int),
            decreases node.variants@.len() - j,
        {
            let c = variant_constructor_exec(&node.name, &node.generic_params, &node.variants[j], j);
            let c2 = clone_function(&c);
            proof {
                lemma_functions_view_push(made@, c);
                lemma_functions_view_push(list@, c2);
                assert(ctors.take(j + 1) =~= ctors.take(j as int).push(ctors[j as int]));
            }
            made.push(c);
            list.push(c2);
            j = j + 1;
        }
        assert(ctors.take(j as int) =~= ctors);
        let ghost mt = self.method_table();
        self.methods.insert(node.name.clone(), list);
        assert(self.method_table() =~= with_methods(mt, node.name@, ctors));
        let imp = IRImpl {
            struct_name: node.name.clone(),
            generic_params: clone_strings(&node.generic_params),
            methods: made,
            attributes: Vec::new(),
        };
        let ghost li = self.lowered_impls();
        self.ir.impls.push(imp);
        assert(self.lowered_impls() =~= li.push(impl_view(imp)));
        assert(impl_view(imp).3 =~= Seq::<Seq<char>>::empty());
    }
}

// ==================== type inference ====================

/// The return type of the first function named `name`.
pub open spec fn declared_return(fs: Seq<FunctionV>, name: Seq<char>) -> Option<TypeView>
    decreases fs.len(),
{
    if fs.len() == 0 {
        None
    } else if fs[0].name == name {
        Some(fs[0].return_type)
    } else {
        declared_return(fs.drop_first(), name)
    }
}

/// The return type of the first function named `name`, `int` when there is
/// none.
pub open spec fn return_or_int(fs: Seq<FunctionV>, name: Seq<char>) -> TypeView {
    match declared_return(fs, name) {
        Some(t) => t,
        None => TypeView::Int,
    }
}

/// The operators whose result is a `bool`.
pub open spec fn is_boolean_operator(op: Seq<char>) -> bool {
    op == "=="@ || op == "!="@ || op == "<"@ || op == ">"@ || op == "<="@ || op == ">="@ || op == "&&"@ || op == "||"@
}

/// The type an expression is taken to have where a declaration omits one,
/// `vars` being the types of the variables in scope, `fs` the functions
/// lowered so far and `structs` the names of the structs: literals by their
/// kind; a variable by its recorded type (else `int`); a call, or a
/// function's address, by the first function of that name (else `int`);
/// `T.new(..)` of a struct `T` is a `T`, another method by the first
/// function `<S>::<method>` of its receiver's struct type (else `int`);
/// comparisons and logic give `bool`; arithmetic gives `float` with a float
/// operand, `str` for `+` with a string, else the left operand's type.
pub open spec fn inferred_type(e: ExprV, vars: Map<Seq<char>, TypeView>, fs: Seq<FunctionV>, structs: Set<Seq<char>>) -> TypeView
    decreases e,
{
    match e {
        ExprV::Literal(l) => match l {
            LitV::Int(_) => TypeView::Int,
            LitV::Float(_) => TypeView::Float,
            LitV::Bool(_) => TypeView::Bool,
            LitV::Str(_) => TypeView::Str,
            LitV::Null => TypeView::None_,
        },
        ExprV::Variable(n) => if vars.contains_key(n) {
            vars[n]
        } else {
            TypeView::Int
        },
        ExprV::StructLiteral { name, .. } => TypeView::Struct(name),
        ExprV::Call { func, .. } => return_or_int(fs, func),
        ExprV::MethodCall { object, method, .. } => {
            let ctor = match *object {
                ExprV::Variable(n) => method == "new"@ && structs.contains(n),
                _ => false,
            };
            if ctor {
                TypeView::Struct(object->Variable_0)
            } else {
                match inferred_type(*object, vars, fs, structs) {
                    TypeView::Struct(sn) => return_or_int(fs, sn + "::"@ + method),
                    _ => TypeView::Int,
                }
            }
        },
        ExprV::Binary { op, left, right } => if is_boolean_operator(op) {
            TypeView::Bool
        } else {
            let lt = inferred_type(*left, vars, fs, structs);
            let rt = inferred_type(*right, vars, fs, structs);
            if lt == TypeView::Float || rt == TypeView::Float {
                TypeView::Float
            } else if op == "+"@ && (lt == TypeView::Str || rt == TypeView::Str) {
                TypeView::Str
            } else {
                lt
            }
        },
        ExprV::Unary { op, operand } => if op == "!"@ {
            TypeView::Bool
        } else {
            inferred_type(*operand, vars, fs, structs)
        },
        ExprV::Cast { target, .. } => target,
        ExprV::ArrayIndex { .. } => TypeView::Int,
        ExprV::Assignment { target, .. } => inferred_type(*target, vars, fs, structs),
        ExprV::ArrayLiteral(_) => TypeView::Array(Box::new(TypeView::Unknown)),
        ExprV::MemberAccess { .. } => TypeView::Int,
        ExprV::FuncRef(n) => return_or_int(fs, n),
        ExprV::IndirectCall { .. } => TypeView::Int,
        ExprV::Empty => TypeView::None_,
    }
}

impl IRBuilder {
    /// The return type of the first lowered function named `name`.
    fn find_return(&self, name: &str) -> (r: Option<DataType>)
        ensures
            match r {
                Some(t) => declared_return(self.lowered_functions(), name@) == Some(t@),
                None => declared_return(self.lowered_functions(), name@) is None,
            },
    {
        let ghost fs = self.lowered_functions();
        let mut i: usize = 0;
        assert(fs.skip(0) =~= fs);
        while i < self.ir.functions.len()
            invariant
                i <= self.ir.functions@.len(),
                fs == functions_view(self.ir.functions@),
                declared_return(fs, name@) == declared_return(fs.skip(i as int), name@),
            decreases self.ir.functions@.len() - i,
        {
            assert(fs.skip(i as int).drop_first() =~= fs.skip(i + 1));
            assert(fs.skip(i as int)[0] == function_view(self.ir.functions@[i as int]));
            if str_eq(self.ir.functions[i].name.as_str(), name) {
                return Some(data_type_clone(&self.ir.functions[i].return_type));
            }
            i = i + 1;
        }
        assert(fs.skip(i as int) =~= Seq::<FunctionV>::empty());
        None
    }

    fn return_or_int_exec(&self, name: &str) -> (t: DataType)
        ensures
            t@ == return_or_int(self.lowered_functions(), name@),
    {
        match self.find_return(name) {
            Some(t) => t,
            None => DataType::Int,
        }
    }

    /// The type an expression is taken to have (see `inferred_type`).
    pub fn infer_expr_type(&self, e: &IRExpr) -> (t: DataType)
        ensures
            t@ == inferred_type(expr_view(*e), self.var_type_table(), self.lowered_functions(), self.struct_table().dom()),
        decreases e,
    {
        let ghost vars = self.var_type_table();
        let ghost fs = self.lowered_functions();
        let ghost sd = self.struct_table().dom();
        match e {
            IRExpr::Literal(l) => match l {
                LitValue::Int(_) => DataType::Int,
                LitValue::Float(_) => DataType::Float,
                LitValue::Bool(_) => DataType::Bool,
                LitValue::Str(_) => DataType::Str,
                LitValue::Null => DataType::None_,
            },
            IRExpr::Variable(n) => match self.var_types.get(n.as_str()) {
                Some(t) => data_type_clone(t),
                None => DataType::Int,
            },
            IRExpr::StructLiteral { name, .. } => DataType::Struct(name.clone()),
            IRExpr::Call { func, .. } => self.return_or_int_exec(func.as_str()),
            IRExpr::MethodCall { object, method, .. } => {
                proof {
                    reveal_with_fuel(expr_view, 2);
                }
                if str_eq(method.as_str(), "new") {
                    match &**object {
                        IRExpr::Variable(n) => {
                            if self.structs.contains_key(n.as_str()) {
                                proof {
                                    reveal_with_fuel(expr_view, 2);
                                    assert(self.struct_table().dom().contains(n@));
                                }
                                return DataType::Struct(n.clone());
                            }
                        },
                        _ => {},
                    }
                }
                let ot = self.infer_expr_type(&**object);
                match ot {
                    DataType::Struct(sn) => {
                        let mut full = sn.clone();
                        full.append("::");
                        full.append(method.as_str());
                        self.return_or_int_exec(full.as_str())
                    },
                    _ => DataType::Int,
                }
            },
            IRExpr::Binary { op, left, right } => {
                let o = op.as_str();
                if str_eq(o, "==") || str_eq(o, "!=") || str_eq(o, "<") || str_eq(o, ">") || str_eq(o, "<=") || str_eq(
                    o,
                    ">=",
                ) || str_eq(o, "&&") || str_eq(o, "||") {
                    return DataType::Bool;
                }
                let lt = self.infer_expr_type(&**left);
                let rt = self.infer_expr_type(&**right);
                let lf = match lt {
                    DataType::Float => true,
                    _ => false,
                };
                let rf = match rt {
                    DataType::Float => true,
                    _ => false,
                };
                if lf || rf {
                    return DataType::Float;
                }
                let ls = match lt {
                    DataType::Str => true,
                    _ => false,
                };
                let rs = match rt {
                    DataType::Str => true,
                    _ => false,
                };
                if str_eq(o, "+") && (ls || rs) {
                    return DataType::Str;
                }
                lt
            },
            IRExpr::Unary { op, operand } => {
                if str_eq(op.as_str(), "!") {
                    DataType::Bool
                } else {
                    self.infer_expr_type(&**operand)
                }
            },
            IRExpr::Cast { target, .. } => data_type_clone(target),
            IRExpr::ArrayIndex { .. } => DataType::Int,
            IRExpr::Assignment { target, .. } => self.infer_expr_type(&**target),
            IRExpr::ArrayLiteral(_) => {
                let u = DataType::Unknown;
                assert(u.spec_view() == TypeView::Unknown);
                let r = DataType::Array(Box::new(u));
                assert(r@ == TypeView::Array(Box::new(TypeView::Unknown)));
                r
            },
            IRExpr::MemberAccess { .. } => DataType::Int,
            IRExpr::FuncRef(n) => self.return_or_int_exec(n.as_str()),
            IRExpr::IndirectCall { .. } => DataType::Int,
            IRExpr::Empty => DataType::None_,
        }
    }
}

// ==================== declarations and simple statements ====================

/// The count a number literal gives: the value of its leading digits,
/// `i64::MAX` where it is larger.
pub open spec fn literal_count(text: Seq<char>) -> i64 {
    let n = digits_value(text.take(digit_end(text, 0)));
    if n > i64::MAX {
        i64::MAX
    } else {
        n as i64
    }
}

/// A dimension's size when written as a number literal.
pub open spec fn literal_dim(size: Option<Box<Expression>>) -> Option<i64> {
    match size {
        Some(b) => match *b {
            Expression::NumberLiteral(t) => Some(literal_count(t@)),
            _ => None,
        },
        None => None,
    }
}

/// The fixed sizes of an array annotation: its own, and its element's when
/// that is an array too.
pub open spec fn array_dims(t: Option<TypeNode>) -> (Option<i64>, Option<i64>) {
    match t {
        Some(TypeNode::Array { element, size }) => (literal_dim(size), match *element {
            TypeNode::Array { size: inner, .. } => literal_dim(inner),
            _ => None,
        }),
        _ => (None, None),
    }
}

/// The value a declaration without an initializer starts with: a new array
/// of its fixed size (rows and columns for two dimensions), or none.
pub open spec fn default_init(dims: (Option<i64>, Option<i64>)) -> Option<ExprV> {
    match dims.0 {
        Some(n) => Some(
            match dims.1 {
                Some(m) => ExprV::Call {
                    func: "gobol_array_new_2d"@,
                    args: seq![ExprV::Literal(LitV::Int(n)), ExprV::Literal(LitV::Int(m))],
                    generic_args: Seq::empty(),
                },
                None => ExprV::Call {
                    func: "gobol_array_new_with_size"@,
                    args: seq![ExprV::Literal(LitV::Int(n))],
                    generic_args: Seq::empty(),
                },
            },
        ),
        None => None,
    }
}

/// The type a declared variable is recorded with: its annotation's type;
/// without a usable one (`none` or `unknown`) its initializer's (see
/// `inferred_type`), `int` where that is `none` or there is no initializer.
pub open spec fn recorded_type(
    ty: TypeView,
    init: Option<ExprV>,
    vars: Map<Seq<char>, TypeView>,
    fs: Seq<FunctionV>,
    structs: Set<Seq<char>>,
) -> TypeView {
    if ty == TypeView::None_ || ty == TypeView::Unknown {
        match init {
            Some(e) => {
                let t = inferred_type(e, vars, fs, structs);
                if t == TypeView::None_ {
                    TypeView::Int
                } else {
                    t
                }
            },
            None => TypeView::Int,
        }
    } else {
        ty
    }
}

/// The type annotation, if any.
pub open spec fn annotation(t: Option<&TypeNode>) -> Option<TypeNode> {
    match t {
        Some(x) => Some(*x),
        None => None,
    }
}

/// The index of the last `return` among `stmts`, or -1.
pub open spec fn last_return(stmts: Seq<StmtV>) -> int
    decreases stmts.len(),
{
    if stmts.len() == 0 {
        -1
    } else if stmts.last() is Return {
        stmts.len() - 1
    } else {
        last_return(stmts.drop_last())
    }
}

/// The value of a lowered block used as an expression: its last `return`'s
/// value (empty for a bare `return`), or empty without one.
pub open spec fn block_value(stmts: Seq<StmtV>) -> ExprV {
    let k = last_return(stmts);
    if k < 0 {
        ExprV::Empty
    } else {
        match stmts[k] {
            StmtV::Return(Some(v)) => v,
            _ => ExprV::Empty,
        }
    }
}

/// A lowered block's statements once its value is taken: its last `return`
/// becomes an expression statement of its value, so that it no longer ends
/// the enclosing function.
pub open spec fn block_without_return(stmts: Seq<StmtV>) -> Seq<StmtV> {
    let k = last_return(stmts);
    if k < 0 {
        stmts
    } else {
        stmts.update(k, StmtV::Expression(block_value(stmts)))
    }
}

proof fn lemma_last_return_bounds(stmts: Seq<StmtV>)
    ensures
        -1 <= last_return(stmts) < stmts.len(),
        last_return(stmts) >= 0 ==> stmts[last_return(stmts)] is Return,
        forall|j: int| last_return(stmts) < j < stmts.len() ==> !(#[trigger] stmts[j] is Return),
    decreases stmts.len(),
{
    if stmts.len() > 0 {
        lemma_last_return_bounds(stmts.drop_last());
        if !(stmts.last() is Return) {
            assert forall|j: int| last_return(stmts) < j < stmts.len() implies !(#[trigger] stmts[j] is Return) by {
                if j < stmts.len() - 1 {
                    assert(stmts[j] == stmts.drop_last()[j]);
                }
            }
        }
    }
}

proof fn lemma_last_return_at(stmts: Seq<StmtV>, k: int)
    requires
        0 <= k < stmts.len(),
        stmts[k] is Return,
        forall|j: int| k < j < stmts.len() ==> !(#[trigger] stmts[j] is Return),
    ensures
        last_return(stmts) == k,
    decreases stmts.len(),
{
    if k < stmts.len() - 1 {
        assert forall|j: int| k < j < stmts.len() - 1 implies !(#[trigger] stmts.drop_last()[j] is Return) by {
            assert(stmts.drop_last()[j] == stmts[j]);
        }
        lemma_last_return_at(stmts.drop_last(), k);
    }
}

proof fn lemma_no_return(stmts: Seq<StmtV>)
    requires
        forall|j: int| 0 <= j < stmts.len() ==> !(#[trigger] stmts[j] is Return),
    ensures
        last_return(stmts) == -1,
    decreases stmts.len(),
{
    if stmts.len() > 0 {
        assert(!(stmts[stmts.len() - 1] is Return));
        assert forall|j: int| 0 <= j < stmts.len() - 1 implies !(#[trigger] stmts.drop_last()[j] is Return) by {
            assert(stmts.drop_last()[j] == stmts[j]);
        }
        lemma_no_return(stmts.drop_last());
    }
}

/// The count a number literal's text gives (see `literal_count`).
fn literal_count_exec(text: &String) -> (n: i64)
    ensures
        n == literal_count(text@),
{
    let cs = crate::text::str_chars(text.as_str());
    let mut acc: u128 = 0;
    let mut i: usize = 0;
    while i < cs.len() && '0' <= cs[i] && cs[i] <= '9'
        invariant
            cs@ == text@,
            i <= cs@.len(),
            digit_end(cs@, 0) == digit_end(cs@, i as int),
            (acc <= i64::MAX && acc == digits_value(cs@.take(i as int))) || (acc > i64::MAX && acc <= 92233720368547758079
                && digits_value(cs@.take(i as int)) > i64::MAX),
        decreases cs@.len() - i,
    {
        let c = cs[i];
        assert(digit_end(cs@, i as int) == digit_end(cs@, i + 1));
        proof {
            assert(cs@.take(i + 1) =~= cs@.take(i as int).push(c));
            assert(cs@.take(i + 1).drop_last() =~= cs@.take(i as int));
        }
        if acc <= 9223372036854775807 {
            let d = (c as u32 - '0' as u32) as u128;
            acc = acc * 10 + d;
        }
        i = i + 1;
    }
    assert(digit_end(cs@, i as int) == i as int);
    if acc > 9223372036854775807 {
        9223372036854775807
    } else {
        acc as i64
    }
}

fn literal_dim_exec(size: &Option<Box<Expression>>) -> (r: Option<i64>)
    ensures
        r == literal_dim(*size),
{
    match size {
        Some(b) => match &**b {
            Expression::NumberLiteral(t) => Some(literal_count_exec(t)),
            _ => None,
        },
        None => None,
    }
}

/// The keys among the first `i` of `keys`.
pub open spec fn first_keys(keys: Seq<String>, i: int) -> Set<Seq<char>> {
    Set::new(|k: Seq<char>| exists|x: int| 0 <= x < i && #[trigger] keys[x]@ == k)
}

proof fn lemma_first_keys_step(keys: Seq<String>, i: int)
    requires
        0 <= i < keys.len(),
    ensures
        first_keys(keys, i + 1) == first_keys(keys, i).insert(keys[i]@),
{
    assert forall|k: Seq<char>| first_keys(keys, i + 1).contains(k) <==> first_keys(keys, i).insert(keys[i]@).contains(k) by {
        if first_keys(keys, i + 1).contains(k) {
            let x = choose|x: int| 0 <= x < i + 1 && #[trigger] keys[x]@ == k;
            if x < i {
                assert(first_keys(keys, i).contains(k));
            }
        }
        if first_keys(keys, i).contains(k) {
            let x = choose|x: int| 0 <= x < i && #[trigger] keys[x]@ == k;
            assert(0 <= x < i + 1 && keys[x]@ == k);
        }
        if k == keys[i]@ {
            assert(0 <= i < i + 1 && keys[i]@ == k);
        }
    }
    assert(first_keys(keys, i + 1) =~= first_keys(keys, i).insert(keys[i]@));
}

/// A copy of a table of types.
fn copy_types(t: &Table<DataType>) -> (r: Table<DataType>)
    ensures
        r@ == t@,
{
    let keys = t.keys();
    let mut r: Table<DataType> = Table::new();
    let mut i: usize = 0;
    assert(r@ =~= t@.restrict(first_keys(keys@, 0)));
    while i < keys.len()
        invariant
            i <= keys@.len(),
            forall|k: Seq<char>| t@.contains_key(k) <==> exists|x: int| 0 <= x < keys@.len() && #[trigger] keys@[x]@ == k,
            r@ == t@.restrict(first_keys(keys@, i as int)),
        decreases keys@.len() - i,
    {
        proof {
            lemma_first_keys_step(keys@, i as int);
        }
        let key = &keys[i];
        match t.get(key.as_str()) {
            Some(d) => {
                r.insert(key.clone(), data_type_clone(d));
            },
            None => {},
        }
        assert(r@ =~= t@.restrict(first_keys(keys@, i + 1)));
        i = i + 1;
    }
    assert(t@.restrict(first_keys(keys@, i as int)) =~= t@);
    r
}

/// A copy of a table of structs.
fn copy_structs(t: &Table<IRStruct>) -> (r: Table<IRStruct>)
    ensures
        r@.map_values(|s: IRStruct| struct_view(s)) == t@.map_values(|s: IRStruct| struct_view(s)),
{
    let keys = t.keys();
    let mut r: Table<IRStruct> = Table::new();
    let mut i: usize = 0;
    let ghost tv = t@.map_values(|s: IRStruct| struct_view(s));
    assert(r@.map_values(|s: IRStruct| struct_view(s)) =~= tv.restrict(first_keys(keys@, 0)));
    while i < keys.len()
        invariant
            i <= keys@.len(),
            tv == t@.map_values(|s: IRStruct| struct_view(s)),
            forall|k: Seq<char>| t@.contains_key(k) <==> exists|x: int| 0 <= x < keys@.len() && #[trigger] keys@[x]@ == k,
            r@.map_values(|s: IRStruct| struct_view(s)) == tv.restrict(first_keys(keys@, i as int)),
        decreases keys@.len() - i,
    {
        proof {
            lemma_first_keys_step(keys@, i as int);
        }
        let key = &keys[i];
        let ghost before = r@.map_values(|s: IRStruct| struct_view(s));
        match t.get(key.as_str()) {
            Some(d) => {
                let c = d.clone();
                assert(struct_view(c) == struct_view(*d));
                r.insert(key.clone(), c);
                assert(r@.map_values(|s: IRStruct| struct_view(s)) =~= before.insert(key@, struct_view(c)));
            },
            None => {},
        }
        assert(r@.map_values(|s: IRStruct| struct_view(s)) =~= tv.restrict(first_keys(keys@, i + 1)));
        i = i + 1;
    }
    assert(tv.restrict(first_keys(keys@, i as int)) =~= tv);
    r
}

fn int_literal(n: i64) -> (e: IRExpr)
    ensures
        expr_view(e) == ExprV::Literal(LitV::Int(n)),
{
    IRExpr::Literal(LitValue::Int(n))
}

impl IRBuilder {
    /// The program lowered so far.
    pub fn lowered_program(&self) -> (r: &GobolIR)
        ensures
            r.structs@.map_values(|s: IRStruct| struct_view(s)) == self.lowered_structs(),
            impls_view(r.impls@) == self.lowered_impls(),
            functions_view(r.functions@) == self.lowered_functions(),
    {
        &self.ir
    }

    /// The statements of the block being lowered.
    pub fn current_statements(&self) -> (r: &Vec<IRStmt>)
        ensures
            stmts_view(r@) == self.block(),
    {
        &self.current_block
    }

    /// Appends a statement to the block being lowered.
    fn emit(&mut self, st: IRStmt)
        ensures
            final(self).block() == old(self).block().push(stmt_view(st)),
            final(self).var_type_table() == old(self).var_type_table(),
            final(self).pending_exprs() == old(self).pending_exprs(),
            final(self).lowered_structs() == old(self).lowered_structs(),
            final(self).lowered_impls() == old(self).lowered_impls(),
            final(self).lowered_functions() == old(self).lowered_functions(),
            final(self).struct_table() == old(self).struct_table(),
            final(self).method_table() == old(self).method_table(),
            final(self).generic_scopes() == old(self).generic_scopes(),
            final(self).macros() == old(self).macros(),
    {
        proof {
            lemma_stmts_view_push(self.current_block@, st);
        }
        self.current_block.push(st);
    }

    /// Lowers a declaration whose initializer, if any, has been lowered to
    /// `init`: without one a fixed-size array starts as a new array of its
    /// size (see `default_init`). The variable's type (see `recorded_type`)
    /// is recorded, and the declaration appended to the block.
    #[verifier::rlimit(40)]
    pub fn visit_declaration(&mut self, name: &str, var_type: Option<&TypeNode>, init: Option<IRExpr>)
        ensures
            ({
                let ty = match var_type {
                    Some(t) => ir_type(*t, old(self).generic_scopes()),
                    None => TypeView::None_,
                };
                let i = match init {
                    Some(e) => Some(expr_view(e)),
                    None => default_init(array_dims(annotation(var_type))),
                };
                let dt = recorded_type(ty, i, old(self).var_type_table(), old(self).lowered_functions(), old(self).struct_table().dom());
                &&& final(self).block() == old(self).block().push(StmtV::Declaration { name: name@, ty: dt, init: i })
                &&& final(self).var_type_table() == old(self).var_type_table().insert(name@, dt)
            }),
            final(self).pending_exprs() == old(self).pending_exprs(),
            final(self).lowered_structs() == old(self).lowered_structs(),
            final(self).lowered_impls() == old(self).lowered_impls(),
            final(self).lowered_functions() == old(self).lowered_functions(),
            final(self).struct_table() == old(self).struct_table(),
            final(self).method_table() == old(self).method_table(),
            final(self).generic_scopes() == old(self).generic_scopes(),
            final(self).macros() == old(self).macros(),
    {
        let ty = self.ast_type_to_data_type(var_type);
        let (outer, inner): (Option<i64>, Option<i64>) = match var_type {
            Some(TypeNode::Array { element, size }) => (literal_dim_exec(size), match &**element {
                TypeNode::Array { size: s2, .. } => literal_dim_exec(s2),
                _ => None,
            }),
            _ => (None, None),
        };
        assert((outer, inner) == array_dims(annotation(var_type)));
        let init = match init {
            Some(e) => Some(e),
            None => match outer {
                Some(n) => {
                    let call = match inner {
                        Some(m) => {
                            let mut args: Vec<IRExpr> = Vec::new();
                            args.push(int_literal(n));
                            args.push(int_literal(m));
                            proof {
                                reveal_with_fuel(exprs_view, 3);
                            }
                            let ga: Vec<DataType> = Vec::new();
                            assert(crate::ir::types_view(ga@) =~= Seq::<TypeView>::empty());
                            let c = IRExpr::Call { func: owned("gobol_array_new_2d"), args, generic_args: ga };
                            proof {
                                assert(exprs_view(args@) =~= seq![ExprV::Literal(LitV::Int(n)), ExprV::Literal(LitV::Int(m))]);
                            }
                            c
                        },
                        None => {
                            let mut args: Vec<IRExpr> = Vec::new();
                            args.push(int_literal(n));
                            proof {
                                reveal_with_fuel(exprs_view, 2);
                            }
                            let ga: Vec<DataType> = Vec::new();
                            assert(crate::ir::types_view(ga@) =~= Seq::<TypeView>::empty());
                            let c = IRExpr::Call { func: owned("gobol_array_new_with_size"), args, generic_args: ga };
                            proof {
                                assert(exprs_view(args@) =~= seq![ExprV::Literal(LitV::Int(n))]);
                            }
                            c
                        },
                    };
                    Some(call)
                },
                None => None,
            },
        };
        let unset = match ty {
            DataType::None_ | DataType::Unknown => true,
            _ => false,
        };
        let dt = if unset {
            match &init {
                Some(e) => {
                    let t = self.infer_expr_type(e);
                    match t {
                        DataType::None_ => DataType::Int,
                        other => other,
                    }
                },
                None => DataType::Int,
            }
        } else {
            ty
        };
        let ghost vt = self.var_type_table();
        let st = IRStmt::Declaration { name: owned(name), ty: data_type_clone(&dt), init };
        self.emit(st);
        self.var_types.insert(owned(name), dt);
        assert(self.var_type_table() =~= vt.insert(name@, dt@));
    }

    /// A builder for lowering a block used as a value (an `if`, `match` or
    /// block initializer): it shares this builder's generic scopes and
    /// structs, and starts with nothing lowered.
    pub fn sub_builder(&self) -> (b: IRBuilder)
        ensures
            b.generic_scopes() == self.generic_scopes(),
            b.struct_table() == self.struct_table(),
            b.block() == Seq::<StmtV>::empty(),
            b.var_type_table() == Map::<Seq<char>, TypeView>::empty(),
            b.pending_exprs() == Seq::<ExprV>::empty(),
    {
        let mut b = IRBuilder::new();
        let mut gs: Vec<Table<DataType>> = Vec::new();
        let mut i: usize = 0;
        while i < self.generic_stack.len()
            invariant
                i <= self.generic_stack@.len(),
                gs@.len() == i,
                forall|k: int| 0 <= k < i ==> (#[trigger] gs@[k])@ == self.generic_stack@[k]@,
            decreases self.generic_stack@.len() - i,
        {
            gs.push(copy_types(&self.generic_stack[i]));
            i = i + 1;
        }
        b.generic_stack = gs;
        b.structs = copy_structs(&self.structs);
        proof {
            assert(b.generic_scopes() =~= self.generic_scopes());
            assert(b.struct_table() =~= self.struct_table());
            assert(b.pending_exprs() =~= Seq::<ExprV>::empty());
        }
        b
    }

    /// Takes in a sub-builder's lowered block used as a value: its last
    /// `return` becomes an expression statement (see
    /// `block_without_return`), its statements are appended to this block,
    /// its variables' types recorded here, and its value (see `block_value`)
    /// returned.
    pub fn absorb_block_value(&mut self, sub: IRBuilder) -> (value: IRExpr)
        ensures
            expr_view(value) == block_value(sub.block()),
            final(self).block() == old(self).block() + block_without_return(sub.block()),
            final(self).var_type_table() == old(self).var_type_table().union_prefer_right(sub.var_type_table()),
            final(self).pending_exprs() == old(self).pending_exprs(),
            final(self).lowered_structs() == old(self).lowered_structs(),
            final(self).lowered_impls() == old(self).lowered_impls(),
            final(self).lowered_functions() == old(self).lowered_functions(),
            final(self).struct_table() == old(self).struct_table(),
            final(self).method_table() == old(self).method_table(),
            final(self).generic_scopes() == old(self).generic_scopes(),
            final(self).macros() == old(self).macros(),
    {
        let ghost sb = sub.block();
        let IRBuilder { current_block, var_types, .. } = sub;
        let mut stmts = current_block;
        proof {
            lemma_stmts_view_index(stmts@);
            lemma_last_return_bounds(sb);
        }
        let mut value = IRExpr::Empty;
        let mut k: usize = stmts.len();
        let mut found = false;
        while k > 0 && !found
            invariant
                k <= stmts@.len(),
                stmts_view(stmts@) == if found { block_without_return(sb) } else { sb },
                !found ==> forall|j: int| k <= j < sb.len() ==> !(#[trigger] sb[j] is Return),
                found ==> expr_view(value) == block_value(sb),
                !found ==> expr_view(value) == ExprV::Empty,
                sb.len() == stmts@.len(),
            decreases k, if found { 0int } else { 1int },
        {
            let j = k - 1;
            let is_return = match &stmts[j] {
                IRStmt::Return(_) => true,
                _ => false,
            };
            proof {
                lemma_stmts_view_index(stmts@);
            }
            if is_return {
                proof {
                    lemma_last_return_at(sb, j as int);
                }
                let v = match &stmts[j] {
                    IRStmt::Return(Some(e)) => crate::ir::clone_expr(e),
                    _ => IRExpr::Empty,
                };
                let ghost vv = expr_view(v);
                let copy = crate::ir::clone_expr(&v);
                stmts.set(j, IRStmt::Expression(copy));
                value = v;
                found = true;
                proof {
                    assert(vv == block_value(sb));
                    lemma_stmts_view_index(stmts@);
                    assert(stmts_view(stmts@) =~= block_without_return(sb));
                }
            } else {
                k = j;
            }
        }
        if !found {
            proof {
                lemma_no_return(sb);
            }
        }
        let ghost before = self.block();
        let mut i: usize = 0;
        let ghost moved = stmts_view(stmts@);
        while i < stmts.len()
            invariant
                i <= stmts@.len(),
                stmts_view(stmts@) == moved,
                self.block() == before + moved.take(i as int),
                self.var_type_table() == old(self).var_type_table(),
                self.pending_exprs() == old(self).pending_exprs(),
                self.lowered_structs() == old(self).lowered_structs(),
                self.lowered_impls() == old(self).lowered_impls(),
                self.lowered_functions() == old(self).lowered_functions(),
                self.struct_table() == old(self).struct_table(),
                self.method_table() == old(self).method_table(),
                self.generic_scopes() == old(self).generic_scopes(),
                self.macros() == old(self).macros(),
            decreases stmts@.len() - i,
        {
            proof {
                lemma_stmts_view_index(stmts@);
                assert(moved.take(i + 1) =~= moved.take(i as int).push(moved[i as int]));
            }
            let st = crate::ir::clone_stmt(&stmts[i]);
            self.emit(st);
            i = i + 1;
        }
        assert(moved.take(i as int) =~= moved);
        let keys = var_types.keys();
        let ghost vt0 = self.var_type_table();
        let ghost sv = var_types@.map_values(|d: DataType| d@);
        let mut i: usize = 0;
        assert(vt0.union_prefer_right(sv.restrict(first_keys(keys@, 0))) =~= vt0);
        while i < keys.len()
            invariant
                i <= keys@.len(),
                forall|k: Seq<char>| var_types@.contains_key(k) <==> exists|x: int| 0 <= x < keys@.len() && #[trigger] keys@[x]@ == k,
                sv == var_types@.map_values(|d: DataType| d@),
                self.var_type_table() == vt0.union_prefer_right(sv.restrict(first_keys(keys@, i as int))),
                self.block() == old(self).block() + block_without_return(sb),
                self.pending_exprs() == old(self).pending_exprs(),
                self.lowered_structs() == old(self).lowered_structs(),
                self.lowered_impls() == old(self).lowered_impls(),
                self.lowered_functions() == old(self).lowered_functions(),
                self.struct_table() == old(self).struct_table(),
                self.method_table() == old(self).method_table(),
                self.generic_scopes() == old(self).generic_scopes(),
                self.macros() == old(self).macros(),
            decreases keys@.len() - i,
        {
            proof {
                lemma_first_keys_step(keys@, i as int);
            }
            let key = &keys[i];
            let ghost before = self.var_type_table();
            match var_types.get(key.as_str()) {
                Some(t) => {
                    self.var_types.insert(key.clone(), data_type_clone(t));
                    assert(self.var_type_table() =~= before.insert(key@, sv[key@]));
                },
                None => {},
            }
            assert(self.var_type_table() =~= vt0.union_prefer_right(sv.restrict(first_keys(keys@, i + 1))));
            i = i + 1;
        }
        assert(sv.restrict(first_keys(keys@, i as int)) =~= sv);
        value
    }

    /// Lowers a `return`: its value, when it has one, is the last lowered
    /// expression.
    pub fn visit_return_statement(&mut self, has_value: bool)
        ensures
            final(self).block() == old(self).block().push(StmtV::Return(
                if has_value {
                    Some(if old(self).pending_exprs().len() > 0 { old(self).pending_exprs().last() } else { ExprV::Empty })
                } else {
                    None
                },
            )),
            final(self).pending_exprs() == if has_value && old(self).pending_exprs().len() > 0 {
                old(self).pending_exprs().drop_last()
            } else {
                old(self).pending_exprs()
            },
            final(self).var_type_table() == old(self).var_type_table(),
            final(self).macros() == old(self).macros(),
    {
        let value = if has_value {
            Some(self.pop_expr())
        } else {
            None
        };
        self.emit(IRStmt::Return(value));
    }

    /// Lowers an expression statement whose expression is the last lowered
    /// one: as a `return` of it when it is the body's tail expression
    /// (written without a semicolon), else as an expression statement.
    pub fn visit_expression_statement(&mut self, tail: bool)
        ensures
            ({
                let e = if old(self).pending_exprs().len() > 0 { old(self).pending_exprs().last() } else { ExprV::Empty };
                final(self).block() == old(self).block().push(if tail { StmtV::Return(Some(e)) } else { StmtV::Expression(e) })
            }),
            final(self).pending_exprs() == if old(self).pending_exprs().len() > 0 {
                old(self).pending_exprs().drop_last()
            } else {
                old(self).pending_exprs()
            },
            final(self).var_type_table() == old(self).var_type_table(),
            final(self).macros() == old(self).macros(),
    {
        let e = self.pop_expr();
        if tail {
            self.emit(IRStmt::Return(Some(e)));
        } else {
            self.emit(IRStmt::Expression(e));
        }
    }

    /// Lowers `break`.
    pub fn visit_break_statement(&mut self)
        ensures
            final(self).block() == old(self).block().push(StmtV::Break),
            final(self).pending_exprs() == old(self).pending_exprs(),
            final(self).var_type_table() == old(self).var_type_table(),
    {
        self.emit(IRStmt::Break);
    }

    /// Lowers `continue`.
    pub fn visit_continue_statement(&mut self)
        ensures
            final(self).block() == old(self).block().push(StmtV::Continue),
            final(self).pending_exprs() == old(self).pending_exprs(),
            final(self).var_type_table() == old(self).var_type_table(),
    {
        self.emit(IRStmt::Continue);
    }
}

// ==================== lowering expressions ====================

/// `b` has lowered the same as `a`, apart from its expression stack.
pub open spec fn keeps_lowering(a: IRBuilder, b: IRBuilder) -> bool {
    &&& b.block() == a.block()
    &&& b.var_type_table() == a.var_type_table()
    &&& b.lowered_structs() == a.lowered_structs()
    &&& b.lowered_impls() == a.lowered_impls()
    &&& b.lowered_functions() == a.lowered_functions()
    &&& b.struct_table() == a.struct_table()
    &&& b.method_table() == a.method_table()
    &&& b.generic_scopes() == a.generic_scopes()
    &&& b.macros() == a.macros()
}

/// The operator a compound assignment applies (`+` for `+=`, ...).
pub open spec fn compound_operator(op: Seq<char>) -> Option<Seq<char>> {
    if op == "+="@ {
        Some("+"@)
    } else if op == "-="@ {
        Some("-"@)
    } else if op == "*="@ {
        Some("*"@)
    } else if op == "/="@ {
        Some("/"@)
    } else {
        None
    }
}

/// `l op r`: a call of the operator's trait method on `l` where it has
/// one (`l.add(r)` for `+`), else the operator itself.
pub open spec fn operator_expr(op: Seq<char>, l: ExprV, r: ExprV) -> ExprV {
    match operator_method(op) {
        Some(m) => ExprV::MethodCall { object: Box::new(l), method: m, args: seq![r], generic_args: Seq::empty() },
        None => ExprV::Binary { op, left: Box::new(l), right: Box::new(r) },
    }
}

/// What a binary expression lowers to, its operands lowered to `l` and
/// `r`: an assignment of `r` to `l`, a compound one (`x += y`) assigning
/// `x + y` to `x`; `&&` and `||` stay binary; another operator is written
/// through `operator_expr`.
pub open spec fn lowered_binary(op: Seq<char>, l: ExprV, r: ExprV) -> ExprV {
    if op == "="@ {
        ExprV::Assignment { target: Box::new(l), value: Box::new(r) }
    } else if compound_operator(op) is Some {
        ExprV::Assignment { target: Box::new(l), value: Box::new(operator_expr(compound_operator(op)->0, l, r)) }
    } else if op == "&&"@ || op == "||"@ {
        ExprV::Binary { op, left: Box::new(l), right: Box::new(r) }
    } else {
        operator_expr(op, l, r)
    }
}

/// The trait method of an arithmetic operator character.
pub open spec fn arithmetic_method_name(c: char) -> Seq<char> {
    if c == '+' {
        "add"@
    } else if c == '-' {
        "sub"@
    } else if c == '*' {
        "mul"@
    } else {
        "div"@
    }
}

/// A compound assignment `l op= r` lowers to `l = l op r`: the assignment
/// to `l` of what `l op r` lowers to, with `op` the compound operator
/// without its `=`; for `+= -= *= /=` that is a call of `add`, `sub`,
/// `mul`, `div` on `l` with `r`.
pub proof fn lemma_compound_assignment(op: Seq<char>, l: ExprV, r: ExprV)
    requires
        op == "+="@ || op == "-="@ || op == "*="@ || op == "/="@,
    ensures
        op.len() == 2 && op[1] == '=',
        lowered_binary(op, l, r) == (ExprV::Assignment {
            target: Box::new(l),
            value: Box::new(lowered_binary(op.take(1), l, r)),
        }),
        lowered_binary(op.take(1), l, r) == (ExprV::MethodCall {
            object: Box::new(l),
            method: arithmetic_method_name(op[0]),
            args: seq![r],
            generic_args: Seq::empty(),
        }),
{
    if op == "+="@ {
        lemma_compound_plus(l, r);
    } else if op == "-="@ {
        lemma_compound_minus(l, r);
    } else if op == "*="@ {
        lemma_compound_times(l, r);
    } else {
        lemma_compound_divide(l, r);
    }
}

proof fn lemma_compound_plus(l: ExprV, r: ExprV)
    ensures
        "+="@.len() == 2 && "+="@[0] == '+' && "+="@[1] == '=',
        "+="@.take(1) == "+"@,
        lowered_binary("+="@, l, r) == (ExprV::Assignment { target: Box::new(l), value: Box::new(lowered_binary("+"@, l, r)) }),
        lowered_binary("+"@, l, r) == (ExprV::MethodCall {
            object: Box::new(l),
            method: "add"@,
            args: seq![r],
            generic_args: Seq::empty(),
        }),
{
    reveal_strlit("=");
    reveal_strlit("+=");
    reveal_strlit("-=");
    reveal_strlit("*=");
    reveal_strlit("/=");
    reveal_strlit("&&");
    reveal_strlit("||");
    reveal_strlit("+");
    reveal_strlit("-");
    reveal_strlit("*");
    reveal_strlit("/");
    reveal_strlit("%");
    reveal_strlit("==");
    assert("+"@.len() == 1 && "+="@.len() == 2 && "&&"@.len() == 2 && "||"@.len() == 2 && "="@.len() == 1);
    assert("+="@.len() == 2 && "-="@.len() == 2 && "*="@.len() == 2 && "/="@.len() == 2);
    assert("+"@ != "="@ && "+="@ != "="@) by {
        assert("+"@[0] != "="@[0]);
    }
    assert("+="@.take(1) =~= "+"@);
    assert(compound_operator("+="@) == Some("+"@));
    assert(operator_method("+"@) == Some("add"@));
}

proof fn lemma_compound_minus(l: ExprV, r: ExprV)
    ensures
        "-="@.len() == 2 && "-="@[0] == '-' && "-="@[1] == '=',
        "-="@.take(1) == "-"@,
        lowered_binary("-="@, l, r) == (ExprV::Assignment { target: Box::new(l), value: Box::new(lowered_binary("-"@, l, r)) }),
        lowered_binary("-"@, l, r) == (ExprV::MethodCall {
            object: Box::new(l),
            method: "sub"@,
            args: seq![r],
            generic_args: Seq::empty(),
        }),
{
    reveal_strlit("=");
    reveal_strlit("+=");
    reveal_strlit("-=");
    reveal_strlit("*=");
    reveal_strlit("/=");
    reveal_strlit("&&");
    reveal_strlit("||");
    reveal_strlit("+");
    reveal_strlit("-");
    reveal_strlit("*");
    reveal_strlit("/");
    reveal_strlit("%");
    reveal_strlit("==");
    assert("-"@.len() == 1 && "-="@.len() == 2 && "&&"@.len() == 2 && "||"@.len() == 2 && "="@.len() == 1);
    assert("+="@.len() == 2 && "-="@.len() == 2 && "*="@.len() == 2 && "/="@.len() == 2);
    assert("-"@ != "="@ && "-="@ != "="@) by {
        assert("-"@[0] != "="@[0]);
    }
    assert("-"@ != "+"@ && "-="@ != "+="@) by {
        assert("-"@[0] != "+"@[0]);
        assert("-="@[0] != "+="@[0]);
    }
    assert("-="@.take(1) =~= "-"@);
    assert(compound_operator("-="@) == Some("-"@));
    assert(operator_method("-"@) == Some("sub"@));
}

proof fn lemma_compound_times(l: ExprV, r: ExprV)
    ensures
        "*="@.len() == 2 && "*="@[0] == '*' && "*="@[1] == '=',
        "*="@.take(1) == "*"@,
        lowered_binary("*="@, l, r) == (ExprV::Assignment { target: Box::new(l), value: Box::new(lowered_binary("*"@, l, r)) }),
        lowered_binary("*"@, l, r) == (ExprV::MethodCall {
            object: Box::new(l),
            method: "mul"@,
            args: seq![r],
            generic_args: Seq::empty(),
        }),
{
    reveal_strlit("=");
    reveal_strlit("+=");
    reveal_strlit("-=");
    reveal_strlit("*=");
    reveal_strlit("/=");
    reveal_strlit("&&");
    reveal_strlit("||");
    reveal_strlit("+");
    reveal_strlit("-");
    reveal_strlit("*");
    reveal_strlit("/");
    reveal_strlit("%");
    reveal_strlit("==");
    assert("*"@.len() == 1 && "*="@.len() == 2 && "&&"@.len() == 2 && "||"@.len() == 2 && "="@.len() == 1);
    assert("+="@.len() == 2 && "-="@.len() == 2 && "*="@.len() == 2 && "/="@.len() == 2);
    assert("*"@ != "="@ && "*="@ != "="@) by {
        assert("*"@[0] != "="@[0]);
    }
    assert("*"@ != "+"@ && "*="@ != "+="@) by {
        assert("*"@[0] != "+"@[0]);
        assert("*="@[0] != "+="@[0]);
    }
    assert("*"@ != "-"@ && "*="@ != "-="@) by {
        assert("*"@[0] != "-"@[0]);
        assert("*="@[0] != "-="@[0]);
    }
    assert("*="@.take(1) =~= "*"@);
    assert(compound_operator("*="@) == Some("*"@));
    assert(operator_method("*"@) == Some("mul"@));
}

proof fn lemma_compound_divide(l: ExprV, r: ExprV)
    ensures
        "/="@.len() == 2 && "/="@[0] == '/' && "/="@[1] == '=',
        "/="@.take(1) == "/"@,
        lowered_binary("/="@, l, r) == (ExprV::Assignment { target: Box::new(l), value: Box::new(lowered_binary("/"@, l, r)) }),
        lowered_binary("/"@, l, r) == (ExprV::MethodCall {
            object: Box::new(l),
            method: "div"@,
            args: seq![r],
            generic_args: Seq::empty(),
        }),
{
    reveal_strlit("=");
    reveal_strlit("+=");
    reveal_strlit("-=");
    reveal_strlit("*=");
    reveal_strlit("/=");
    reveal_strlit("&&");
    reveal_strlit("||");
    reveal_strlit("+");
    reveal_strlit("-");
    reveal_strlit("*");
    reveal_strlit("/");
    reveal_strlit("%");
    reveal_strlit("==");
    assert("/"@.len() == 1 && "/="@.len() == 2 && "&&"@.len() == 2 && "||"@.len() == 2 && "="@.len() == 1);
    assert("+="@.len() == 2 && "-="@.len() == 2 && "*="@.len() == 2 && "/="@.len() == 2);
    assert("/"@ != "="@ && "/="@ != "="@) by {
        assert("/"@[0] != "="@[0]);
    }
    assert("/"@ != "+"@ && "/="@ != "+="@) by {
        assert("/"@[0] != "+"@[0]);
        assert("/="@[0] != "+="@[0]);
    }
    assert("/"@ != "-"@ && "/="@ != "-="@) by {
        assert("/"@[0] != "-"@[0]);
        assert("/="@[0] != "-="@[0]);
    }
    assert("/"@ != "*"@ && "/="@ != "*="@) by {
        assert("/"@[0] != "*"@[0]);
        assert("/="@[0] != "*="@[0]);
    }
    assert("/="@.take(1) =~= "/"@);
    assert(compound_operator("/="@) == Some("/"@));
    assert(operator_method("/"@) == Some("div"@));
}

/// Takes a name up to its first `<` (`Vec` for `Vec<T>`).
pub open spec fn before_angle(s: Seq<char>) -> Seq<char> {
    decode_utf8(bytes_before(encode_utf8(s), 60))
}

impl IRBuilder {
    /// The type whose `impl` block is being lowered.
    pub closed spec fn impl_type(&self) -> Option<Seq<char>> {
        match self.current_struct {
            Some(s) => Some(s@),
            None => None,
        }
    }

    fn push_lowered(&mut self, e: IRExpr)
        ensures
            final(self).pending_exprs() == old(self).pending_exprs().push(expr_view(e)),
            keeps_lowering(*old(self), *final(self)),
            final(self).impl_type() == old(self).impl_type(),
    {
        self.expr_stack.push(e);
        assert(self.expr_stack@.drop_last() =~= old(self).expr_stack@);
    }

    /// `l op r` (see `operator_expr`).
    fn operator_call(op: &str, l: IRExpr, r: IRExpr) -> (e: IRExpr)
        ensures
            expr_view(e) == operator_expr(op@, expr_view(l), expr_view(r)),
    {
        match SemanticAnalyzer::operator_to_method(op) {
            Some(m) => {
                let mut args: Vec<IRExpr> = Vec::new();
                args.push(r);
                let ga: Vec<DataType> = Vec::new();
                proof {
                    reveal_with_fuel(exprs_view, 2);
                    assert(crate::ir::types_view(ga@) =~= Seq::<TypeView>::empty());
                }
                let e = IRExpr::MethodCall { object: Box::new(l), method: owned(m), args, generic_args: ga };
                proof {
                    assert(exprs_view(args@) =~= seq![expr_view(r)]);
                }
                e
            },
            None => IRExpr::Binary { op: owned(op), left: Box::new(l), right: Box::new(r) },
        }
    }

    /// Lowers a binary expression whose operands have been lowered to
    /// `left` and `right` (see `lowered_binary`), pushing the result.
    pub fn visit_binary_expression(&mut self, op: &str, left: IRExpr, right: IRExpr)
        ensures
            final(self).pending_exprs() == old(self).pending_exprs().push(lowered_binary(op@, expr_view(left), expr_view(right))),
            keeps_lowering(*old(self), *final(self)),
            final(self).impl_type() == old(self).impl_type(),
    {
        let e = if str_eq(op, "=") {
            IRExpr::Assignment { target: Box::new(left), value: Box::new(right) }
        } else {
            let applied: Option<&str> = if str_eq(op, "+=") {
                Some("+")
            } else if str_eq(op, "-=") {
                Some("-")
            } else if str_eq(op, "*=") {
                Some("*")
            } else if str_eq(op, "/=") {
                Some("/")
            } else {
                None
            };
            match applied {
                Some(r) => {
                    let lv = clone_expr(&left);
                    let value = IRBuilder::operator_call(r, lv, right);
                    IRExpr::Assignment { target: Box::new(left), value: Box::new(value) }
                },
                None => {
                    if str_eq(op, "&&") || str_eq(op, "||") {
                        IRExpr::Binary { op: owned(op), left: Box::new(left), right: Box::new(right) }
                    } else {
                        IRBuilder::operator_call(op, left, right)
                    }
                },
            }
        };
        self.push_lowered(e);
    }

    /// Lowers a unary expression: `&name` takes the address of the function
    /// `name`; otherwise the operator applies to `operand`, the operand's
    /// lowering.
    pub fn visit_unary_expression(&mut self, op: &str, operand_node: Option<&Expression>, operand: IRExpr)
        ensures
            final(self).pending_exprs() == old(self).pending_exprs().push(
                match operand_node {
                    Some(Expression::Identifier(n)) => if op@ == "&"@ {
                        ExprV::FuncRef(n@)
                    } else {
                        ExprV::Unary { op: op@, operand: Box::new(expr_view(operand)) }
                    },
                    _ => ExprV::Unary { op: op@, operand: Box::new(expr_view(operand)) },
                },
            ),
            keeps_lowering(*old(self), *final(self)),
            final(self).impl_type() == old(self).impl_type(),
    {
        if str_eq(op, "&") {
            match operand_node {
                Some(Expression::Identifier(n)) => {
                    self.push_lowered(IRExpr::FuncRef(n.clone()));
                    return;
                },
                _ => {},
            }
        }
        self.push_lowered(IRExpr::Unary { op: owned(op), operand: Box::new(operand) });
    }

    /// Lowers a cast of the lowered `expr` to the type `target` denotes.
    pub fn visit_cast_expression(&mut self, expr: IRExpr, target: &TypeNode)
        ensures
            final(self).pending_exprs() == old(self).pending_exprs().push(
                ExprV::Cast { expr: Box::new(expr_view(expr)), target: ir_type(*target, old(self).generic_scopes()) },
            ),
            keeps_lowering(*old(self), *final(self)),
            final(self).impl_type() == old(self).impl_type(),
    {
        let t = self.ast_type_to_data_type(Some(target));
        self.push_lowered(IRExpr::Cast { expr: Box::new(expr), target: t });
    }

    /// Lowers a member access on the lowered `object`.
    pub fn visit_member_access(&mut self, object: IRExpr, member: &str)
        ensures
            final(self).pending_exprs() == old(self).pending_exprs().push(
                ExprV::MemberAccess { object: Box::new(expr_view(object)), member: member@ },
            ),
            keeps_lowering(*old(self), *final(self)),
            final(self).impl_type() == old(self).impl_type(),
    {
        self.push_lowered(IRExpr::MemberAccess { object: Box::new(object), member: owned(member) });
    }

    /// Lowers an indexing of the lowered `array` by the lowered `index`.
    pub fn visit_array_index(&mut self, array: IRExpr, index: IRExpr)
        ensures
            final(self).pending_exprs() == old(self).pending_exprs().push(
                ExprV::ArrayIndex { array: Box::new(expr_view(array)), index: Box::new(expr_view(index)) },
            ),
            keeps_lowering(*old(self), *final(self)),
            final(self).impl_type() == old(self).impl_type(),
    {
        self.push_lowered(IRExpr::ArrayIndex { array: Box::new(array), index: Box::new(index) });
    }

    /// Lowers an array literal of the lowered elements.
    pub fn visit_array_literal(&mut self, elements: Vec<IRExpr>)
        ensures
            final(self).pending_exprs() == old(self).pending_exprs().push(ExprV::ArrayLiteral(exprs_view(elements@))),
            keeps_lowering(*old(self), *final(self)),
            final(self).impl_type() == old(self).impl_type(),
    {
        self.push_lowered(IRExpr::ArrayLiteral(elements));
    }

    /// Lowers an identifier: a generic parameter, `self`, or a local
    /// variable is a variable; inside an `impl` block a field of its type
    /// (looked up by the type's name up to any `<`) is a member of `self`;
    /// anything else is a variable.
    pub fn visit_identifier(&mut self, name: &str)
        ensures
            final(self).pending_exprs() == old(self).pending_exprs().push(
                if generic_lookup(old(self).generic_scopes(), name@) is None && name@ != "self"@ && match old(self).impl_type() {
                    Some(sn) => !old(self).var_type_table().contains_key(name@) && old(self).struct_table().contains_key(
                        before_angle(sn),
                    ) && old(self).struct_table()[before_angle(sn)].2.map_values(|f: (Seq<char>, TypeView)| f.0).contains(name@),
                    None => false,
                } {
                    ExprV::MemberAccess { object: Box::new(ExprV::Variable("self"@)), member: name@ }
                } else {
                    ExprV::Variable(name@)
                },
            ),
            keeps_lowering(*old(self), *final(self)),
            final(self).impl_type() == old(self).impl_type(),
    {
        let generic = self.lookup_generic(name).is_some();
        let mut member = false;
        if !generic && !str_eq(name, "self") {
            match &self.current_struct {
                Some(sn) => {
                    if !self.var_types.contains_key(name) {
                        let base = text_before(sn.as_str(), 60);
                        match self.structs.get(base) {
                            Some(st) => {
                                let ghost fv = struct_view(*st).2.map_values(|f: (Seq<char>, TypeView)| f.0);
                                let mut i: usize = 0;
                                while i < st.fields.len()
                                    invariant
                                        i <= st.fields@.len(),
                                        fv == struct_view(*st).2.map_values(|f: (Seq<char>, TypeView)| f.0),
                                        fv.len() == st.fields@.len(),
                                        forall|k: int| 0 <= k < st.fields@.len() ==> fv[k] == st.fields@[k].name@,
                                        member <==> exists|k: int| 0 <= k < i && fv[k] == name@,
                                    decreases st.fields@.len() - i,
                                {
                                    assert(fv[i as int] == st.fields@[i as int].name@);
                                    if str_eq(st.fields[i].name.as_str(), name) {
                                        member = true;
                                    }
                                    i = i + 1;
                                }
                                assert(member <==> fv.contains(name@));
                                assert(self.struct_table()[base@] == struct_view(*st));
                            },
                            None => {},
                        }
                    }
                },
                None => {},
            }
        }
        if member {
            let this = IRExpr::Variable(owned("self"));
            let e = IRExpr::MemberAccess { object: Box::new(this), member: owned(name) };
            proof {
                reveal_with_fuel(expr_view, 2);
            }
            self.push_lowered(e);
        } else {
            self.push_lowered(IRExpr::Variable(owned(name)));
        }
    }
}

// ==================== lowering functions ====================

/// A built-in type name.
pub open spec fn is_builtin_type_name(n: Seq<char>) -> bool {
    n == "int"@ || n == "float"@ || n == "bool"@ || n == "str"@ || n == "none"@
}

/// The names in a type annotation taken for generic parameters, in order:
/// a written name (see `type_node_name`) that is not built in and starts
/// with a lowercase letter, then those inside a generic type's arguments,
/// an array's element type or a nullable type.
pub open spec fn generic_names(t: TypeNode) -> Seq<Seq<char>>
    decreases t, 0nat,
{
    let own = match type_node_name(t) {
        Some(n) => if !is_builtin_type_name(n) && n.len() > 0 && char_lowercase(n[0]) {
            seq![n]
        } else {
            Seq::empty()
        },
        None => Seq::empty(),
    };
    own + match t {
        TypeNode::Generic { args, .. } => generic_names_list(args@),
        TypeNode::Array { element, .. } => generic_names(*element),
        TypeNode::Nullable(inner) => generic_names(*inner),
        _ => Seq::empty(),
    }
}

/// The generic-parameter names in a list of annotations, in order.
pub open spec fn generic_names_list(ts: Seq<TypeNode>) -> Seq<Seq<char>>
    decreases ts, 1nat,
{
    if ts.len() == 0 {
        Seq::empty()
    } else {
        generic_names(ts[0]) + generic_names_list(ts.subrange(1, ts.len() as int))
    }
}

/// The generic-parameter names of an optional annotation.
pub open spec fn opt_generic_names(t: Option<Box<TypeNode>>) -> Seq<Seq<char>> {
    match t {
        Some(b) => generic_names(*b),
        None => Seq::empty(),
    }
}

/// The names in the parameters' annotations, in order.
pub open spec fn param_generic_names(ps: Seq<Parameter>) -> Seq<Seq<char>>
    decreases ps.len(),
{
    if ps.len() == 0 {
        Seq::empty()
    } else {
        param_generic_names(ps.drop_last()) + opt_generic_names(ps.last().param_type)
    }
}

/// A sequence with each run of equal neighbours kept once (`Vec::dedup`).
pub open spec fn dedup_runs(s: Seq<Seq<char>>) -> Seq<Seq<char>>
    decreases s.len(),
{
    if s.len() <= 1 {
        s
    } else if s.last() == s[s.len() - 2] {
        dedup_runs(s.drop_last())
    } else {
        dedup_runs(s.drop_last()).push(s.last())
    }
}

/// The generic parameters a function is lowered with: the names its
/// parameter and return annotations use (see `generic_names`), with runs
/// of repeats kept once.
pub open spec fn function_generics(node: Function) -> Seq<Seq<char>> {
    let ps = match node.parameters {
        Some(p) => p@,
        None => Seq::empty(),
    };
    dedup_runs(param_generic_names(ps) + opt_generic_names(node.return_type))
}

proof fn lemma_dedup_runs_push(s: Seq<Seq<char>>, x: Seq<char>)
    ensures
        dedup_runs(s.push(x)) == if s.len() > 0 && s.last() == x {
            dedup_runs(s)
        } else {
            dedup_runs(s).push(x)
        },
{
    assert(s.push(x).drop_last() =~= s);
    if s.len() == 0 {
        assert(dedup_runs(s) =~= Seq::<Seq<char>>::empty());
        assert(dedup_runs(s.push(x)) =~= seq![x]);
    }
}

/// Appends the generic-parameter names a type annotation uses (see
/// `generic_names`).
fn collect_generic_names(ty: &TypeNode, params: &mut Vec<String>)
    ensures
        strings_view(final(params)@) == strings_view(old(params)@) + generic_names(*ty),
    decreases ty, 0nat,
{
    let ghost start = strings_view(params@);
    let name: Option<&String> = match ty {
        TypeNode::Basic(n) => Some(n),
        TypeNode::Generic { base, .. } => Some(base),
        _ => None,
    };
    match name {
        Some(n) => {
            let builtin = str_eq(n.as_str(), "int") || str_eq(n.as_str(), "float") || str_eq(n.as_str(), "bool") || str_eq(
                n.as_str(),
                "str",
            ) || str_eq(n.as_str(), "none");
            if !builtin && n.unicode_len() > 0 && crate::text::is_lowercase_char(n.get_char(0)) {
                let ghost before = params@;
                params.push(n.clone());
                assert(params@.drop_last() =~= before);
                assert(strings_view(params@) =~= strings_view(before).push(n@));
            }
        },
        None => {},
    }
    let ghost mid = strings_view(params@);
    match ty {
        TypeNode::Generic { args, .. } => {
            collect_generic_names_list(args, params);
        },
        TypeNode::Array { element, .. } => {
            collect_generic_names(&**element, params);
        },
        TypeNode::Nullable(inner) => {
            collect_generic_names(&**inner, params);
        },
        _ => {},
    }
    assert(strings_view(params@) =~= start + generic_names(*ty));
}

fn collect_generic_names_list(ts: &Vec<TypeNode>, params: &mut Vec<String>)
    ensures
        strings_view(final(params)@) == strings_view(old(params)@) + generic_names_list(ts@),
    decreases ts@, 1nat,
{
    let ghost start = strings_view(params@);
    let mut i: usize = 0;
    assert(ts@.subrange(0, ts@.len() as int) =~= ts@);
    while i < ts.len()
        invariant
            i <= ts@.len(),
            strings_view(params@) + generic_names_list(ts@.subrange(i as int, ts@.len() as int)) == start
                + generic_names_list(ts@),
        decreases ts@.len() - i,
    {
        let ghost rest = ts@.subrange(i as int, ts@.len() as int);
        assert(rest[0] == ts@[i as int]);
        assert(rest.subrange(1, rest.len() as int) =~= ts@.subrange(i + 1, ts@.len() as int));
        let ghost before = strings_view(params@);
        proof {
            assert(decreases_to!(ts@ => ts@[i as int]));
        }
        collect_generic_names(&ts[i], params);
        assert(strings_view(params@) + generic_names_list(ts@.subrange(i + 1, ts@.len() as int)) =~= before
            + generic_names_list(rest));
        i = i + 1;
    }
    assert(ts@.subrange(i as int, ts@.len() as int) =~= Seq::<TypeNode>::empty());
    assert(strings_view(params@) + Seq::<Seq<char>>::empty() =~= strings_view(params@));
}

impl IRBuilder {
    /// The generic parameters a function is lowered with (see
    /// `function_generics`).
    pub fn extract_generic_params(&self, func: &Function) -> (r: Vec<String>)
        ensures
            strings_view(r@) == function_generics(*func),
    {
        let mut names: Vec<String> = Vec::new();
        match &func.parameters {
            Some(list) => {
                let mut i: usize = 0;
                assert(list@.take(0) =~= Seq::<Parameter>::empty());
                while i < list.len()
                    invariant
                        i <= list@.len(),
                        strings_view(names@) == param_generic_names(list@.take(i as int)),
                    decreases list@.len() - i,
                {
                    assert(list@.take(i + 1).drop_last() =~= list@.take(i as int));
                    assert(list@.take(i + 1).last() == list@[i as int]);
                    match &list[i].param_type {
                        Some(b) => collect_generic_names(&**b, &mut names),
                        None => {
                            assert(strings_view(names@) + Seq::<Seq<char>>::empty() =~= strings_view(names@));
                        },
                    }
                    i = i + 1;
                }
                assert(list@.take(i as int) =~= list@);
            },
            None => {
                assert(strings_view(names@) =~= Seq::<Seq<char>>::empty());
            },
        }
        match &func.return_type {
            Some(b) => collect_generic_names(&**b, &mut names),
            None => {
                assert(strings_view(names@) + Seq::<Seq<char>>::empty() =~= strings_view(names@));
            },
        }
        let ghost all = strings_view(names@);
        let mut r: Vec<String> = Vec::new();
        let mut j: usize = 0;
        proof {
            lemma_strings_view_index(names@);
        }
        assert(all.take(0) =~= Seq::<Seq<char>>::empty());
        while j < names.len()
            invariant
                j <= names@.len(),
                all == strings_view(names@),
                all.len() == names@.len(),
                forall|k: int| 0 <= k < names@.len() ==> #[trigger] all[k] == names@[k]@,
                strings_view(r@) == dedup_runs(all.take(j as int)),
                j > 0 ==> r@.len() > 0 && r@.last()@ == all[j - 1],
            decreases names@.len() - j,
        {
            proof {
                lemma_dedup_runs_push(all.take(j as int), all[j as int]);
                assert(all.take(j + 1) =~= all.take(j as int).push(all[j as int]));
            }
            let repeat = j > 0 && str_eq(r[r.len() - 1].as_str(), names[j].as_str());
            if !repeat {
                let ghost before = r@;
                r.push(names[j].clone());
                assert(strings_view(r@) =~= strings_view(before).push(names@[j as int]@));
            }
            j = j + 1;
        }
        assert(all.take(j as int) =~= all);
        r
    }
}

/// The parameters a function is lowered with, `scopes` being the generic
/// scopes with its own: each with its annotation's type, and `self` with
/// the `impl` type inside an `impl` block.
pub open spec fn lowered_params(ps: Seq<Parameter>, impl_type: Option<Seq<char>>, scopes: Seq<Map<Seq<char>, TypeView>>) -> Seq<(Seq<char>, TypeView)> {
    ps.map_values(
        |p: Parameter|
            (p.name@, if p.name@ == "self"@ && impl_type is Some {
                TypeView::Struct(impl_type->0)
            } else {
                opt_ir_type(p.param_type, scopes)
            }),
    )
}

/// The variable types the parameters give, a later one of the same name
/// replacing an earlier.
pub open spec fn param_table(ps: Seq<(Seq<char>, TypeView)>) -> Map<Seq<char>, TypeView>
    decreases ps.len(),
{
    if ps.len() == 0 {
        Map::empty()
    } else {
        param_table(ps.drop_last()).insert(ps.last().0, ps.last().1)
    }
}

/// Whether some parameter is named `self`.
pub open spec fn has_self(ps: Seq<(Seq<char>, TypeView)>) -> bool {
    exists|i: int| 0 <= i < ps.len() && (#[trigger] ps[i]).0 == "self"@
}

/// A function's parameters (none when they could not be read).
pub open spec fn params_of(node: Function) -> Seq<Parameter> {
    match node.parameters {
        Some(p) => p@,
        None => Seq::empty(),
    }
}

/// The function being lowered once a definition is entered (see
/// `enter_function`), its body still to come.
pub open spec fn entered_function(node: Function, impl_type: Option<Seq<char>>, scopes_before: Seq<Map<Seq<char>, TypeView>>) -> FunctionV {
    let g = function_generics(node);
    let scopes = scopes_before.push(generic_bindings(g));
    let ps = match node.parameters {
        Some(p) => p@,
        None => Seq::empty(),
    };
    let lp = lowered_params(ps, impl_type, scopes);
    let is_method = impl_type is Some;
    let is_main = node.name@ == "main"@;
    FunctionV {
        name: if is_method {
            impl_type->0 + "::"@ + node.name@
        } else {
            node.name@
        },
        generic_params: g,
        params: if is_method && !has_self(lp) {
            seq![("self"@, TypeView::Struct(impl_type->0))] + lp
        } else {
            lp
        },
        return_type: if is_main {
            TypeView::Int
        } else {
            opt_ir_type(node.return_type, scopes)
        },
        body: None,
        is_main,
        is_method,
        struct_name: impl_type,
        attributes: strings_view(node.attributes@),
        is_variadic: false,
    }
}

/// The name an `impl` block's methods are qualified with: its type as
/// written when that has `<` or there are no generic parameters, else the
/// type with them, as in `Vec<T, U>`.
pub open spec fn impl_full_name(node: ImplBlock) -> Seq<char> {
    if node.struct_name@.contains('<') || node.generic_params@.len() == 0 {
        node.struct_name@
    } else {
        node.struct_name@ + "<"@ + join_seq(strings_view(node.generic_params@), ", "@) + ">"@
    }
}

/// The names of parameters other than `self`, in order.
pub open spec fn names_but_self(ps: Seq<(Seq<char>, TypeView)>) -> Seq<Seq<char>>
    decreases ps.len(),
{
    if ps.len() == 0 {
        Seq::empty()
    } else if ps.last().0 == "self"@ {
        names_but_self(ps.drop_last())
    } else {
        names_but_self(ps.drop_last()).push(ps.last().0)
    }
}

/// `b` is `a` once the function being lowered is finished (see
/// `finish_function`).
pub open spec fn finished(a: IRBuilder, b: IRBuilder) -> bool {
    &&& match a.lowering_function() {
        Some(f) => {
            let done = if f.attributes.contains("intrinsic"@) && a.block().len() == 0 {
                FunctionV { body: None, ..f }
            } else {
                FunctionV { body: Some(a.block()), ..f }
            };
            &&& b.lowered_functions() == a.lowered_functions().push(done)
            &&& b.main_name() == if f.is_main {
                Some(f.name)
            } else {
                a.main_name()
            }
            &&& b.block() == Seq::<StmtV>::empty()
        },
        None => {
            &&& b.lowered_functions() == a.lowered_functions()
            &&& b.main_name() == a.main_name()
            &&& b.block() == a.block()
        },
    }
    &&& b.lowering_function() is None
    &&& !b.in_function_body()
    &&& b.function_name() is None
    &&& b.function_return() == TypeView::None_
}

fn has_char(s: &str, c: char) -> (r: bool)
    ensures
        r == s@.contains(c),
{
    let cs = str_chars(s);
    let mut i: usize = 0;
    while i < cs.len()
        invariant
            cs@ == s@,
            i <= cs@.len(),
            forall|k: int| 0 <= k < i ==> cs@[k] != c,
        decreases cs@.len() - i,
    {
        if cs[i] == c {
            assert(s@[i as int] == c);
            return true;
        }
        i = i + 1;
    }
    false
}

impl IRBuilder {
    /// The function being lowered, its body still to come.
    pub closed spec fn lowering_function(&self) -> Option<FunctionV> {
        match self.current_ir_function {
            Some(f) => Some(function_view(f)),
            None => None,
        }
    }

    /// The name of the program's main function, once lowered.
    pub closed spec fn main_name(&self) -> Option<Seq<char>> {
        match self.ir.main_function {
            Some(n) => Some(n@),
            None => None,
        }
    }

    /// The name of the function being lowered.
    pub closed spec fn function_name(&self) -> Option<Seq<char>> {
        match self.current_function {
            Some(n) => Some(n@),
            None => None,
        }
    }

    /// The return type of the function being lowered.
    pub closed spec fn function_return(&self) -> TypeView {
        self.current_function_return@
    }

    /// Lowering is inside a function.
    pub closed spec fn in_function_body(&self) -> bool {
        self.in_function
    }

    /// Lowering is inside an `impl` block.
    pub closed spec fn in_impl_block(&self) -> bool {
        self.in_impl
    }

    /// The function lowered so far, with its body still to come.
    pub fn current_function_ir(&self) -> (r: Option<&IRFunction>)
        ensures
            match r {
                Some(f) => self.lowering_function() == Some(function_view(*f)),
                None => self.lowering_function() is None,
            },
    {
        match &self.current_ir_function {
            Some(f) => Some(f),
            None => None,
        }
    }

    /// Enters a function definition: it becomes the function being lowered
    /// (see `entered_function`), a method when inside an `impl` block; its
    /// generic parameters (see `function_generics`) are put in scope and
    /// the variable types start as its parameters' (see `param_table`). Its
    /// body is then lowered into the block, and `leave_function` completes
    /// it.
    pub fn enter_function(&mut self, node: &Function)
        ensures
            ({
                let g = function_generics(*node);
                let scopes = old(self).generic_scopes().push(generic_bindings(g));
                let ps = match node.parameters {
                    Some(p) => p@,
                    None => Seq::empty(),
                };
                let f = entered_function(*node, old(self).impl_type(), old(self).generic_scopes());
                &&& final(self).lowering_function() == Some(f)
                &&& final(self).generic_scopes() == scopes
                &&& final(self).var_type_table() == param_table(lowered_params(ps, old(self).impl_type(), scopes))
                &&& final(self).function_name() == Some(node.name@)
                &&& final(self).function_return() == f.return_type
                &&& final(self).in_function_body()
            }),
            final(self).block() == old(self).block(),
            final(self).pending_exprs() == old(self).pending_exprs(),
            final(self).impl_type() == old(self).impl_type(),
            final(self).lowered_structs() == old(self).lowered_structs(),
            final(self).lowered_impls() == old(self).lowered_impls(),
            final(self).lowered_functions() == old(self).lowered_functions(),
            final(self).struct_table() == old(self).struct_table(),
            final(self).method_table() == old(self).method_table(),
            final(self).macros() == old(self).macros(),
            final(self).in_impl_block() == old(self).in_impl_block(),
    {
        let ghost it = self.impl_type();
        let ghost gs0 = self.generic_scopes();
        let is_main = str_eq(node.name.as_str(), "main");
        let is_method = self.current_struct.is_some();
        let generic_params = self.extract_generic_params(node);
        self.current_function = Some(node.name.clone());
        self.in_function = true;
        self.push_generic_scope(&generic_params);
        let ghost scopes = self.generic_scopes();
        self.var_types.clear();
        let ghost ps = params_of(*node);
        let ghost lp = lowered_params(ps, it, scopes);
        let mut params: Vec<IRParam> = Vec::new();
        let mut saw_self = false;
        match &node.parameters {
            Some(list) => {
                let mut i: usize = 0;
                assert(lp.take(0) =~= Seq::<(Seq<char>, TypeView)>::empty());
                while i < list.len()
                    invariant
                        i <= list@.len(),
                        ps == list@,
                        lp == lowered_params(ps, it, scopes),
                        self.generic_scopes() == scopes,
                        it == self.impl_type(),
                        params@.map_values(|p: IRParam| (p.name@, p.ty@)) == lp.take(i as int),
                        self.var_type_table() == param_table(lp.take(i as int)),
                        saw_self <==> has_self(lp.take(i as int)),
                        self.lowered_functions() == old(self).lowered_functions(),
                        self.lowered_structs() == old(self).lowered_structs(),
                        self.lowered_impls() == old(self).lowered_impls(),
                        self.main_name() == old(self).main_name(),
                        self.pending_exprs() == old(self).pending_exprs(),
                        self.struct_table() == old(self).struct_table(),
                        self.method_table() == old(self).method_table(),
                        self.macros() == old(self).macros(),
                        self.block() == old(self).block(),
                        self.in_impl == old(self).in_impl,
                        self.impl_type() == old(self).impl_type(),
                        self.lowering_function() == old(self).lowering_function(),
                        self.function_return() == old(self).function_return(),
                        self.function_name() == Some(node.name@),
                        self.in_function_body(),
                    decreases list@.len() - i,
                {
                    let p = &list[i];
                    let is_self = str_eq(p.name.as_str(), "self");
                    let ty = if is_self && self.current_struct.is_some() {
                        match &self.current_struct {
                            Some(sn) => DataType::Struct(sn.clone()),
                            None => DataType::Unknown,
                        }
                    } else {
                        match &p.param_type {
                            Some(b) => self.ast_type_to_data_type(Some(&**b)),
                            None => self.ast_type_to_data_type(None),
                        }
                    };
                    let ghost entry = (p.name@, ty@);
                    assert(lp[i as int] == entry);
                    let ghost before_vt = self.var_type_table();
                    self.var_types.insert(p.name.clone(), data_type_clone(&ty));
                    let ghost before_ps = params@;
                    params.push(IRParam { name: p.name.clone(), ty });
                    proof {
                        assert(lp.take(i + 1) =~= lp.take(i as int).push(entry));
                        assert(lp.take(i + 1).drop_last() =~= lp.take(i as int));
                        assert(self.var_type_table() =~= before_vt.insert(entry.0, entry.1));
                        assert(params@.map_values(|q: IRParam| (q.name@, q.ty@)) =~= before_ps.map_values(
                            |q: IRParam| (q.name@, q.ty@),
                        ).push(entry));
                        if is_self {
                            assert(lp.take(i + 1)[i as int].0 == "self"@);
                        }
                        if has_self(lp.take(i + 1)) && !is_self {
                            let k = choose|k: int| 0 <= k < i + 1 && (#[trigger] lp.take(i + 1)[k]).0 == "self"@;
                            assert(lp.take(i as int)[k].0 == "self"@);
                        }
                        if has_self(lp.take(i as int)) {
                            let k = choose|k: int| 0 <= k < i && (#[trigger] lp.take(i as int)[k]).0 == "self"@;
                            assert(lp.take(i + 1)[k].0 == "self"@);
                        }
                    }
                    if is_self {
                        saw_self = true;
                    }
                    i = i + 1;
                }
                assert(lp.take(i as int) =~= lp);
            },
            None => {
                assert(lp =~= Seq::<(Seq<char>, TypeView)>::empty());
                assert(self.var_type_table() =~= param_table(lp));
            },
        }
        let ghost lpv = params@.map_values(|p: IRParam| (p.name@, p.ty@));
        if is_method && !saw_self {
            match &self.current_struct {
                Some(sn) => {
                    params.insert(0, IRParam { name: owned("self"), ty: DataType::Struct(sn.clone()) });
                    assert(params@.map_values(|p: IRParam| (p.name@, p.ty@)) =~= seq![("self"@, TypeView::Struct(sn@))] + lpv);
                },
                None => {},
            }
        }
        let return_type = if is_main {
            DataType::Int
        } else {
            match &node.return_type {
                Some(b) => self.ast_type_to_data_type(Some(&**b)),
                None => DataType::None_,
            }
        };
        self.current_function_return = data_type_clone(&return_type);
        let full_name = match &self.current_struct {
            Some(sn) => {
                let mut f = sn.clone();
                f.append("::");
                f.append(node.name.as_str());
                f
            },
            None => node.name.clone(),
        };
        let struct_name = match &self.current_struct {
            Some(sn) => Some(sn.clone()),
            None => None,
        };
        let f = IRFunction {
            name: full_name,
            generic_params,
            params,
            return_type,
            body: None,
            is_main,
            is_method,
            struct_name,
            attributes: clone_strings(&node.attributes),
            is_variadic: false,
        };
        self.current_ir_function = Some(f);
        proof {
            let ef = entered_function(*node, it, gs0);
            let fv = function_view(f);
            assert(fv.params =~= ef.params);
            assert(fv.name == ef.name);
            assert(fv.generic_params == ef.generic_params);
            assert(fv.return_type == ef.return_type);
            assert(fv.attributes == ef.attributes);
            assert(fv.struct_name == ef.struct_name);
            assert(fv.is_method == ef.is_method);
            assert(fv.is_main == ef.is_main);
            assert(fv == ef);
        }
    }

    /// Leaves a function definition entered by `enter_function`, its body
    /// lowered into the block: an `#[expand]` function is recorded as a
    /// macro (its parameters but `self`, and the block so far as its body);
    /// its generic scope is closed; and a function outside an `impl` block
    /// is finished (see `finish_function`).
    pub fn leave_function(&mut self, node: &Function)
        ensures
            final(self).macros() == if strings_view(node.attributes@).contains("expand"@) && old(self).lowering_function() is Some {
                old(self).macros().insert(node.name@, (names_but_self(old(self).lowering_function()->0.params), old(self).block()))
            } else {
                old(self).macros()
            },
            final(self).generic_scopes() == if old(self).generic_scopes().len() > 0 {
                old(self).generic_scopes().drop_last()
            } else {
                old(self).generic_scopes()
            },
            old(self).impl_type() is Some ==> {
                &&& final(self).block() == old(self).block()
                &&& final(self).lowering_function() == old(self).lowering_function()
                &&& final(self).lowered_functions() == old(self).lowered_functions()
            },
            old(self).impl_type() is None ==> finished(*old(self), *final(self)),
            final(self).impl_type() == old(self).impl_type(),
            final(self).pending_exprs() == old(self).pending_exprs(),
            final(self).lowered_structs() == old(self).lowered_structs(),
            final(self).lowered_impls() == old(self).lowered_impls(),
            final(self).struct_table() == old(self).struct_table(),
            final(self).method_table() == old(self).method_table(),
    {
        if IRBuilder::has_attr(&node.attributes, "expand") {
            match &self.current_ir_function {
                Some(f) => {
                    let mut names: Vec<String> = Vec::new();
                    let ghost pv = function_view(*f).params;
                    let mut i: usize = 0;
                    assert(pv.take(0) =~= Seq::<(Seq<char>, TypeView)>::empty());
                    while i < f.params.len()
                        invariant
                            i <= f.params@.len(),
                            pv == f.params@.map_values(|p: IRParam| (p.name@, p.ty@)),
                            strings_view(names@) == names_but_self(pv.take(i as int)),
                        decreases f.params@.len() - i,
                    {
                        proof {
                            assert(pv.take(i + 1).drop_last() =~= pv.take(i as int));
                            assert(pv.take(i + 1).last() == pv[i as int]);
                        }
                        if !str_eq(f.params[i].name.as_str(), "self") {
                            let ghost before = names@;
                            names.push(f.params[i].name.clone());
                            assert(strings_view(names@) =~= strings_view(before).push(f.params@[i as int].name@));
                        }
                        i = i + 1;
                    }
                    assert(pv.take(i as int) =~= pv);
                    let body = IRBlock { statements: clone_stmts(&self.current_block) };
                    let ghost entry = (strings_view(names@), stmts_view(body.statements@));
                    self.expand_functions.insert(node.name.clone(), (names, body));
                    assert(self.macros() =~= old(self).macros().insert(node.name@, entry));
                },
                None => {},
            }
        }
        if self.generic_stack.len() > 0 {
            self.generic_stack.pop();
            assert(self.generic_scopes() =~= old(self).generic_scopes().drop_last());
        }
        if self.current_struct.is_none() {
            self.finish_function();
        }
    }

    /// Finishes the function being lowered: it takes the block as its body
    /// (none for an `#[intrinsic]` function with an empty block), becomes
    /// the main function when it is `main`, and joins the lowered
    /// functions; lowering is then outside any function.
    fn finish_function(&mut self)
        ensures
            finished(*old(self), *final(self)),
            final(self).macros() == old(self).macros(),
            final(self).generic_scopes() == old(self).generic_scopes(),
            final(self).impl_type() == old(self).impl_type(),
            final(self).pending_exprs() == old(self).pending_exprs(),
            final(self).lowered_structs() == old(self).lowered_structs(),
            final(self).lowered_impls() == old(self).lowered_impls(),
            final(self).struct_table() == old(self).struct_table(),
            final(self).method_table() == old(self).method_table(),
    {
        let taken = self.current_ir_function.take();
        match taken {
            Some(mut func) => {
                let bodyless = IRBuilder::has_attr(&func.attributes, "intrinsic")
                    && self.current_block.len() == 0;
                let mut stmts: Vec<IRStmt> = Vec::new();
                std::mem::swap(&mut stmts, &mut self.current_block);
                let ghost sv = stmts_view(stmts@);
                if bodyless {
                    func.body = None;
                } else {
                    func.body = Some(IRBlock { statements: stmts });
                }
                if func.is_main {
                    self.ir.main_function = Some(func.name.clone());
                }
                let ghost fv = function_view(func);
                proof {
                    lemma_functions_view_push(self.ir.functions@, func);
                    if bodyless {
                        assert(sv =~= Seq::<StmtV>::empty());
                    }
                }
                self.ir.functions.push(func);
                assert(self.block() =~= Seq::<StmtV>::empty());
            },
            None => {},
        }
        self.in_function = false;
        self.current_function = None;
        self.current_function_return = DataType::None_;
    }
}

// ==================== lowering impl blocks ====================

/// What lowering a method sets aside of the function being lowered, for
/// `leave_impl_method` to restore.
pub struct MethodFrame {
    pub function: Option<String>,
    pub return_type: DataType,
    pub block: Vec<IRStmt>,
    pub ir_function: Option<IRFunction>,
    pub exprs: Vec<IRExpr>,
    pub in_function: bool,
}

/// The method lowered once its body is in the block: the function being
/// lowered with the block as its body, as a method of the `impl` type.
pub open spec fn completed_method(f: FunctionV, body: Seq<StmtV>, owner: Option<Seq<char>>) -> FunctionV {
    FunctionV { body: Some(body), struct_name: owner, is_method: true, ..f }
}

impl IRBuilder {
    /// Enters an `impl` block: its type with its generic parameters (see
    /// `impl_full_name`) becomes the `impl` type, and its generic parameters
    /// are put in scope. Each method is then lowered between
    /// `enter_impl_method` and `leave_impl_method`, and `leave_impl_block`
    /// records the block.
    pub fn visit_impl_block(&mut self, node: &ImplBlock)
        ensures
            final(self).impl_type() == Some(impl_full_name(*node)),
            final(self).in_impl_block(),
            final(self).generic_scopes() == old(self).generic_scopes().push(generic_bindings(strings_view(node.generic_params@))),
            final(self).block() == old(self).block(),
            final(self).pending_exprs() == old(self).pending_exprs(),
            final(self).lowered_structs() == old(self).lowered_structs(),
            final(self).lowered_impls() == old(self).lowered_impls(),
            final(self).lowered_functions() == old(self).lowered_functions(),
            final(self).struct_table() == old(self).struct_table(),
            final(self).method_table() == old(self).method_table(),
            final(self).macros() == old(self).macros(),
    {
        let full = if has_char(node.struct_name.as_str(), '<') || node.generic_params.len() == 0 {
            node.struct_name.clone()
        } else {
            let mut f = node.struct_name.clone();
            f.append("<");
            let joined = join_strings(&node.generic_params, ", ");
            assert(node.generic_params@.map_values(|x: String| x@) =~= strings_view(node.generic_params@));
            f.append(joined.as_str());
            f.append(">");
            f
        };
        self.current_struct = Some(full);
        self.in_impl = true;
        self.push_generic_scope(&node.generic_params);
    }

    /// Sets aside the function being lowered before a method of the `impl`
    /// block is lowered: the block, the expression stack and the function
    /// start empty, outside any function.
    pub fn enter_impl_method(&mut self) -> (frame: MethodFrame)
        ensures
            stmts_view(frame.block@) == old(self).block(),
            exprs_view(frame.exprs@) == old(self).pending_exprs(),
            final(self).block() == Seq::<StmtV>::empty(),
            final(self).pending_exprs() == Seq::<ExprV>::empty(),
            final(self).lowering_function() is None,
            final(self).impl_type() == old(self).impl_type(),
            final(self).generic_scopes() == old(self).generic_scopes(),
            final(self).lowered_functions() == old(self).lowered_functions(),
            final(self).lowered_structs() == old(self).lowered_structs(),
            final(self).lowered_impls() == old(self).lowered_impls(),
            final(self).struct_table() == old(self).struct_table(),
            final(self).method_table() == old(self).method_table(),
            final(self).macros() == old(self).macros(),
    {
        let mut block: Vec<IRStmt> = Vec::new();
        std::mem::swap(&mut block, &mut self.current_block);
        let mut exprs: Vec<IRExpr> = Vec::new();
        std::mem::swap(&mut exprs, &mut self.expr_stack);
        let ir_function = self.current_ir_function.take();
        assert(self.block() =~= Seq::<StmtV>::empty());
        assert(self.pending_exprs() =~= Seq::<ExprV>::empty());
        MethodFrame {
            function: self.current_function.clone(),
            return_type: data_type_clone(&self.current_function_return),
            block,
            ir_function,
            exprs,
            in_function: self.in_function,
        }
    }

    /// Completes a method lowered after `enter_impl_method`: the method
    /// (see `completed_method`) joins the `impl` type's methods and is
    /// returned for `leave_impl_block`; the frame's function, block and
    /// expression stack are restored.
    pub fn leave_impl_method(&mut self, frame: MethodFrame) -> (method: Option<IRFunction>)
        ensures
            match old(self).lowering_function() {
                Some(f) => {
                    let m = completed_method(f, old(self).block(), old(self).impl_type());
                    &&& method matches Some(x) && function_view(x) == m
                    &&& final(self).method_table() == match old(self).impl_type() {
                        Some(t) => with_methods(old(self).method_table(), t, seq![m]),
                        None => old(self).method_table(),
                    }
                },
                None => method is None && final(self).method_table() == old(self).method_table(),
            },
            final(self).block() == stmts_view(frame.block@),
            final(self).pending_exprs() == exprs_view(frame.exprs@),
            final(self).lowering_function() == match frame.ir_function {
                Some(f) => Some(function_view(f)),
                None => None,
            },
            final(self).impl_type() == old(self).impl_type(),
            final(self).generic_scopes() == old(self).generic_scopes(),
            final(self).lowered_functions() == old(self).lowered_functions(),
            final(self).lowered_structs() == old(self).lowered_structs(),
            final(self).lowered_impls() == old(self).lowered_impls(),
            final(self).struct_table() == old(self).struct_table(),
            final(self).macros() == old(self).macros(),
    {
        let taken = self.current_ir_function.take();
        let result = match taken {
            Some(mut f) => {
                let mut body: Vec<IRStmt> = Vec::new();
                std::mem::swap(&mut body, &mut self.current_block);
                f.body = Some(IRBlock { statements: body });
                f.struct_name = match &self.current_struct {
                    Some(n) => Some(n.clone()),
                    None => None,
                };
                f.is_method = true;
                match &self.current_struct {
                    Some(owner) => {
                        let mut list: Vec<IRFunction> = match self.methods.get(owner.as_str()) {
                            Some(existing) => clone_functions(existing),
                            None => Vec::new(),
                        };
                        let ghost start = functions_view(list@);
                        let ghost mt0 = self.method_table();
                        assert(start == if mt0.contains_key(owner@) {
                            mt0[owner@]
                        } else {
                            Seq::<FunctionV>::empty()
                        });
                        let c = clone_function(&f);
                        proof {
                            lemma_functions_view_push(list@, c);
                        }
                        list.push(c);
                        let ghost mt = self.method_table();
                        self.methods.insert(owner.clone(), list);
                        assert(start.push(function_view(f)) =~= start + seq![function_view(f)]);
                        assert(self.method_table() =~= with_methods(mt, owner@, seq![function_view(f)]));
                    },
                    None => {},
                }
                Some(f)
            },
            None => None,
        };
        self.current_function = frame.function;
        self.current_function_return = frame.return_type;
        self.current_block = frame.block;
        self.current_ir_function = frame.ir_function;
        self.expr_stack = frame.exprs;
        self.in_function = frame.in_function;
        result
    }

    /// Leaves an `impl` block entered by `visit_impl_block`, `methods` being
    /// its lowered methods in order: its generic scope is closed, lowering
    /// is outside any `impl` block, and the block is recorded.
    pub fn leave_impl_block(&mut self, node: &ImplBlock, methods: Vec<IRFunction>)
        ensures
            final(self).impl_type() is None,
            !final(self).in_impl_block(),
            final(self).generic_scopes() == if old(self).generic_scopes().len() > 0 {
                old(self).generic_scopes().drop_last()
            } else {
                old(self).generic_scopes()
            },
            final(self).lowered_impls() == old(self).lowered_impls().push(
                (node.struct_name@, strings_view(node.generic_params@), functions_view(methods@), Seq::<Seq<char>>::empty()),
            ),
            final(self).block() == old(self).block(),
            final(self).pending_exprs() == old(self).pending_exprs(),
            final(self).lowered_structs() == old(self).lowered_structs(),
            final(self).lowered_functions() == old(self).lowered_functions(),
            final(self).struct_table() == old(self).struct_table(),
            final(self).method_table() == old(self).method_table(),
            final(self).macros() == old(self).macros(),
    {
        if self.generic_stack.len() > 0 {
            self.generic_stack.pop();
            assert(self.generic_scopes() =~= old(self).generic_scopes().drop_last());
        }
        self.current_struct = None;
        self.in_impl = false;
        let imp = IRImpl {
            struct_name: node.struct_name.clone(),
            generic_params: clone_strings(&node.generic_params),
            methods,
            attributes: Vec::new(),
        };
        let ghost li = self.lowered_impls();
        self.ir.impls.push(imp);
        assert(self.lowered_impls() =~= li.push(impl_view(imp)));
        assert(impl_view(imp).3 =~= Seq::<Seq<char>>::empty());
    }
}


// ==================== whole-program passes ====================

/// A function's parameters as lowered: each name with its type (none when
/// the list could not be read).
pub open spec fn extern_params(ps: Option<Vec<Parameter>>, scopes: Seq<Map<Seq<char>, TypeView>>) -> Seq<(Seq<char>, TypeView)> {
    match ps {
        Some(v) => v@.map_values(|p: Parameter| (p.name@, opt_ir_type(p.param_type, scopes))),
        None => Seq::empty(),
    }
}

/// A function of an `extern "C"` block as lowered: its parameters and
/// return type, no body, and the one attribute `extern`.
pub open spec fn extern_function(f: Function, scopes: Seq<Map<Seq<char>, TypeView>>) -> FunctionV {
    FunctionV {
        name: f.name@,
        generic_params: Seq::empty(),
        params: extern_params(f.parameters, scopes),
        return_type: opt_ir_type(f.return_type, scopes),
        body: None,
        is_main: false,
        is_method: false,
        struct_name: None,
        attributes: seq!["extern"@],
        is_variadic: f.is_variadic,
    }
}

/// The functions of the `extern` blocks among `stmts`, in order, as lowered.
pub open spec fn extern_functions(stmts: Seq<Statement>, scopes: Seq<Map<Seq<char>, TypeView>>) -> Seq<FunctionV>
    decreases stmts.len(),
{
    if stmts.len() == 0 {
        Seq::empty()
    } else {
        let prev = extern_functions(stmts.drop_last(), scopes);
        match stmts.last() {
            Statement::ExternBlock(eb) => prev + eb.functions@.map_values(|f: Function| extern_function(f, scopes)),
            _ => prev,
        }
    }
}

/// The struct definitions among `stmts`, in order.
pub open spec fn struct_definitions(stmts: Seq<Statement>) -> Seq<StructDefinition>
    decreases stmts.len(),
{
    if stmts.len() == 0 {
        Seq::empty()
    } else {
        match stmts.last() {
            Statement::StructDefinition(d) => struct_definitions(stmts.drop_last()).push(d),
            _ => struct_definitions(stmts.drop_last()),
        }
    }
}

/// The struct table after the definitions `ds` are recorded in order.
pub open spec fn with_structs(
    t: Map<Seq<char>, StructV>,
    ds: Seq<StructDefinition>,
    scopes: Seq<Map<Seq<char>, TypeView>>,
) -> Map<Seq<char>, StructV>
    decreases ds.len(),
{
    if ds.len() == 0 {
        t
    } else {
        with_structs(t, ds.drop_last(), scopes).insert(ds.last().name@, lowered_struct(ds.last(), scopes))
    }
}

impl IRBuilder {
    /// Lowers the struct definitions among a program's top-level
    /// statements, in order (the first pass of a build).
    pub fn declare_struct_definitions(&mut self, program: &Program)
        ensures
            ({
                let ds = struct_definitions(program.statements@);
                let gs = old(self).generic_scopes();
                &&& final(self).lowered_structs() == old(self).lowered_structs() + ds.map_values(
                    |d: StructDefinition| lowered_struct(d, gs),
                )
                &&& final(self).struct_table() == with_structs(old(self).struct_table(), ds, gs)
            }),
            final(self).lowered_impls() == old(self).lowered_impls(),
            final(self).method_table() == old(self).method_table(),
            final(self).generic_scopes() == old(self).generic_scopes(),
            final(self).macros() == old(self).macros(),
    {
        let stmts = &program.statements;
        let ghost gs = self.generic_scopes();
        let mut i: usize = 0;
        assert(stmts@.take(0) =~= Seq::<Statement>::empty());
        assert(old(self).lowered_structs() + Seq::<StructDefinition>::empty().map_values(|d: StructDefinition| lowered_struct(d, gs))
            =~= old(self).lowered_structs());
        while i < stmts.len()
            invariant
                i <= stmts@.len(),
                stmts@ == program.statements@,
                self.generic_scopes() == gs,
                gs == old(self).generic_scopes(),
                self.lowered_structs() == old(self).lowered_structs() + struct_definitions(stmts@.take(i as int)).map_values(
                    |d: StructDefinition| lowered_struct(d, gs),
                ),
                self.struct_table() == with_structs(old(self).struct_table(), struct_definitions(stmts@.take(i as int)), gs),
                self.lowered_impls() == old(self).lowered_impls(),
                self.method_table() == old(self).method_table(),
                self.macros() == old(self).macros(),
            decreases stmts@.len() - i,
        {
            assert(stmts@.take(i + 1).drop_last() =~= stmts@.take(i as int));
            assert(stmts@.take(i + 1).last() == stmts@[i as int]);
            let ghost before = struct_definitions(stmts@.take(i as int));
            let ghost ls = self.lowered_structs();
            match &stmts[i] {
                Statement::StructDefinition(d) => {
                    self.visit_struct_definition(d);
                    assert(struct_definitions(stmts@.take(i + 1)) == before.push(*d));
                    assert(before.push(*d).drop_last() =~= before);
                    assert(before.push(*d).map_values(|x: StructDefinition| lowered_struct(x, gs)) =~= before.map_values(
                        |x: StructDefinition| lowered_struct(x, gs),
                    ).push(lowered_struct(*d, gs)));
                    assert(self.lowered_structs() =~= old(self).lowered_structs() + before.push(*d).map_values(
                        |x: StructDefinition| lowered_struct(x, gs),
                    ));
                },
                _ => {},
            }
            i = i + 1;
        }
        assert(stmts@.take(i as int) =~= stmts@);
    }

    /// Lowers a function of an `extern "C"` block (see `extern_function`).
    fn lower_extern_function(&self, f: &Function) -> (r: IRFunction)
        ensures
            function_view(r) == extern_function(*f, self.generic_scopes()),
    {
        let mut params: Vec<IRParam> = Vec::new();
        match &f.parameters {
            Some(ps) => {
                let mut j: usize = 0;
                while j < ps.len()
                    invariant
                        j <= ps@.len(),
                        f.parameters == Some(*ps),
                        params@.map_values(|p: IRParam| (p.name@, p.ty@)) == ps@.take(j as int).map_values(
                            |p: Parameter| (p.name@, opt_ir_type(p.param_type, self.generic_scopes())),
                        ),
                    decreases ps@.len() - j,
                {
                    let p = &ps[j];
                    let ty = match &p.param_type {
                        Some(b) => self.ast_type_to_data_type(Some(&**b)),
                        None => self.ast_type_to_data_type(None),
                    };
                    let ghost before = params@;
                    let ghost gs = self.generic_scopes();
                    assert(ty@ == opt_ir_type(p.param_type, gs));
                    let name = p.name.clone();
                    assert(name@ == p.name@);
                    params.push(IRParam { name, ty });
                    proof {
                        let lhs = params@.map_values(|q: IRParam| (q.name@, q.ty@));
                        let rhs = ps@.take(j + 1).map_values(|q: Parameter| (q.name@, opt_ir_type(q.param_type, gs)));
                        let lb = before.map_values(|q: IRParam| (q.name@, q.ty@));
                        let rb = ps@.take(j as int).map_values(|q: Parameter| (q.name@, opt_ir_type(q.param_type, gs)));
                        assert(lb.len() == rb.len());
                        assert(before.len() == j);
                        assert(lhs.len() == rhs.len());
                        assert forall|k: int| 0 <= k < lhs.len() implies lhs[k] == rhs[k] by {
                            if k < j {
                                assert(lb[k] == rb[k]);
                                assert(params@[k] == before[k]);
                            } else {
                                assert(ps@.take(j + 1)[k] == ps@[j as int]);
                            }
                        }
                        assert(lhs =~= rhs);
                    }
                    j = j + 1;
                }
                assert(ps@.take(j as int) =~= ps@);
            },
            None => {
                assert(params@.map_values(|p: IRParam| (p.name@, p.ty@)) =~= Seq::<(Seq<char>, TypeView)>::empty());
            },
        }
        let return_type = match &f.return_type {
            Some(b) => self.ast_type_to_data_type(Some(&**b)),
            None => self.ast_type_to_data_type(None),
        };
        let mut attributes: Vec<String> = Vec::new();
        attributes.push(owned("extern"));
        let r = IRFunction {
            name: f.name.clone(),
            generic_params: Vec::new(),
            params,
            return_type,
            body: None,
            is_main: false,
            is_method: false,
            struct_name: None,
            attributes,
            is_variadic: f.is_variadic,
        };
        assert(strings_view(r.attributes@) =~= seq!["extern"@]);
        assert(strings_view(r.generic_params@) =~= Seq::<Seq<char>>::empty());
        assert(function_view(r) =~= extern_function(*f, self.generic_scopes()));
        r
    }

    /// Lowers the functions of the `extern "C"` blocks among a program's
    /// top-level statements, in order (the last pass of a build).
    pub fn declare_extern_functions(&mut self, program: &Program)
        ensures
            final(self).lowered_functions() == old(self).lowered_functions() + extern_functions(
                program.statements@,
                old(self).generic_scopes(),
            ),
            final(self).lowered_structs() == old(self).lowered_structs(),
            final(self).lowered_impls() == old(self).lowered_impls(),
            final(self).struct_table() == old(self).struct_table(),
            final(self).method_table() == old(self).method_table(),
            final(self).generic_scopes() == old(self).generic_scopes(),
            final(self).macros() == old(self).macros(),
            final(self).error_texts() == old(self).error_texts(),
    {
        let stmts = &program.statements;
        let ghost gs = self.generic_scopes();
        let mut i: usize = 0;
        assert(stmts@.take(0) =~= Seq::<Statement>::empty());
        assert(old(self).lowered_functions() + Seq::<FunctionV>::empty() =~= old(self).lowered_functions());
        while i < stmts.len()
            invariant
                i <= stmts@.len(),
                stmts@ == program.statements@,
                self.generic_scopes() == gs,
                gs == old(self).generic_scopes(),
                self.lowered_functions() == old(self).lowered_functions() + extern_functions(stmts@.take(i as int), gs),
                self.lowered_structs() == old(self).lowered_structs(),
                self.lowered_impls() == old(self).lowered_impls(),
                self.struct_table() == old(self).struct_table(),
                self.method_table() == old(self).method_table(),
                self.macros() == old(self).macros(),
                self.error_texts() == old(self).error_texts(),
            decreases stmts@.len() - i,
        {
            assert(stmts@.take(i + 1).drop_last() =~= stmts@.take(i as int));
            assert(stmts@.take(i + 1).last() == stmts@[i as int]);
            let ghost prev = extern_functions(stmts@.take(i as int), gs);
            match &stmts[i] {
                Statement::ExternBlock(eb) => {
                    let fs = &eb.functions;
                    let ghost base = self.lowered_functions();
                    let mut j: usize = 0;
                    assert(fs@.take(0).map_values(|f: Function| extern_function(f, gs)) =~= Seq::<FunctionV>::empty());
                    assert(base + Seq::<FunctionV>::empty() =~= base);
                    while j < fs.len()
                        invariant
                            j <= fs@.len(),
                            self.generic_scopes() == gs,
                            self.lowered_functions() == base + fs@.take(j as int).map_values(|f: Function| extern_function(f, gs)),
                            self.lowered_structs() == old(self).lowered_structs(),
                            self.lowered_impls() == old(self).lowered_impls(),
                            self.struct_table() == old(self).struct_table(),
                            self.method_table() == old(self).method_table(),
                            self.macros() == old(self).macros(),
                            self.error_texts() == old(self).error_texts(),
                        decreases fs@.len() - j,
                    {
                        let f = self.lower_extern_function(&fs[j]);
                        let ghost fsv = self.ir.functions@;
                        self.ir.functions.push(f);
                        proof {
                            lemma_functions_view_push(fsv, f);
                        }
                        assert(fs@.take(j + 1).map_values(|g: Function| extern_function(g, gs)) =~= fs@.take(j as int).map_values(
                            |g: Function| extern_function(g, gs),
                        ).push(extern_function(fs@[j as int], gs)));
                        assert(self.lowered_functions() =~= base + fs@.take(j + 1).map_values(|g: Function| extern_function(g, gs)));
                        j = j + 1;
                    }
                    assert(fs@.take(j as int) =~= fs@);
                    assert(self.lowered_functions() =~= old(self).lowered_functions() + extern_functions(stmts@.take(i + 1), gs));
                },
                _ => {},
            }
            i = i + 1;
        }
        assert(stmts@.take(i as int) =~= stmts@);
    }

    /// Ends a build: the program lowered, when no error was reported, else
    /// the errors in the order they were reported.
    pub fn finish(self) -> (r: Result<GobolIR, Vec<String>>)
        ensures
            match r {
                Ok(ir) => {
                    &&& self.error_texts().len() == 0
                    &&& functions_view(ir.functions@) == self.lowered_functions()
                    &&& ir.structs@.map_values(|s: IRStruct| struct_view(s)) == self.lowered_structs()
                    &&& impls_view(ir.impls@) == self.lowered_impls()
                },
                Err(e) => self.error_texts().len() > 0 && strings_view(e@) == self.error_texts(),
            },
    {
        if self.errors.len() > 0 {
            Err(self.errors)
        } else {
            Ok(self.ir)
        }
    }
}

} // verus!
