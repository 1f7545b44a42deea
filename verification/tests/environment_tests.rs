use gobol::ast::Expression;
use gobol::environment::{data_type_to_string, ArrayDimension, DataType, Environment, Symbol, SymbolType};

#[test]
fn type_names() {
    assert_eq!(data_type_to_string(DataType::Int), "int");
    assert_eq!(data_type_to_string(DataType::None_), "none");
    assert_eq!(data_type_to_string(DataType::Struct("Point".to_string())), "Point");
    assert_eq!(data_type_to_string(DataType::Nullable(Box::new(DataType::Str))), "str?");
    assert_eq!(data_type_to_string(DataType::Array(Box::new(DataType::Float))), "float[]");
}

#[test]
fn inner_scope_shadows_and_exit_restores() {
    let mut env = Environment::new();
    assert!(env.declare_variable("x", &DataType::Int, false));
    env.enter_scope();
    assert_eq!(env.get_current_scope(), 1);
    assert!(env.declare_variable("x", &DataType::Str, true));
    assert_eq!(env.get_symbol_type("x"), DataType::Str);
    assert!(env.lookup_symbol("x").unwrap().is_mut);
    env.exit_scope();
    assert_eq!(env.get_symbol_type("x"), DataType::Int);
    assert!(!env.lookup_symbol("x").unwrap().is_mut);
    assert_eq!(env.get_scope_count(), 1);
}

#[test]
fn redeclaration_in_the_same_scope_is_refused() {
    let mut env = Environment::new();
    assert!(env.declare_variable("a", &DataType::Int, false));
    assert!(!env.declare_variable("a", &DataType::Float, false));
    assert_eq!(env.get_symbol_type("a"), DataType::Int);
    assert!(env.is_declared_in_current_scope("a"));
    env.enter_scope();
    assert!(!env.is_declared_in_current_scope("a"));
    assert!(env.is_declared("a"));
    assert_eq!(env.get_symbol_type("b"), DataType::Unknown);
}

#[test]
fn functions_are_keyed_by_module() {
    let mut env = Environment::new();
    env.enter_scope();
    assert!(env.declare_function("area", &DataType::Float, "geo"));
    assert!(!env.declare_function("area", &DataType::Int, "geo"));
    let sym = env.lookup_symbol("geo.area").unwrap();
    assert_eq!(sym.symbol_type, SymbolType::Function);
    assert_eq!(sym.data_type, DataType::Float);
    assert_eq!(sym.module_name, "geo");
    assert_eq!(sym.scope_level, 0);
}

#[test]
fn modules_may_be_declared_twice() {
    let mut env = Environment::new();
    assert!(env.declare_module("io"));
    assert!(env.declare_module("io"));
    env.declare_variable("v", &DataType::Int, false);
    assert!(!env.declare_module("v"));
}

#[test]
fn arrays_record_their_dimensions() {
    let mut env = Environment::new();
    assert!(env.declare_array_constant("grid", &DataType::Int, &[3, 4], true));
    let sym = env.lookup_symbol("grid").unwrap();
    assert!(sym.is_array);
    assert_eq!(sym.get_dimension(), 2);
    assert_eq!(sym.get_constant_size(1), 4);
    assert!(sym.is_dimension_constant(0));
    let s = Symbol::new_array_expr("buf", &DataType::Str, 0, vec![Box::new(Expression::Identifier("n".to_string()))], false);
    assert!(!s.is_dimension_constant(0));
    assert!(s.get_size_expr(0).is_some());
    assert_eq!(ArrayDimension::new_constant(5).constant_size, 5);
    assert!(!ArrayDimension::new_expr(Box::new(Expression::NullLiteral)).is_constant);
}

#[test]
fn compatibility_and_numbers() {
    assert!(Environment::is_type_compatible(&DataType::Float, &DataType::Int));
    assert!(!Environment::is_type_compatible(&DataType::Int, &DataType::Float));
    assert!(Environment::is_numeric_type(&DataType::Float));
    assert!(!Environment::is_numeric_type(&DataType::Bool));
}

#[test]
fn reset_forgets_everything() {
    let mut env = Environment::new();
    env.declare_variable("x", &DataType::Int, false);
    env.enter_scope();
    env.reset();
    assert_eq!(env.get_scope_count(), 1);
    assert!(!env.is_declared("x"));
}

#[test]
fn scope_listings() {
    let mut env = Environment::new();
    assert_eq!(env.scope_listing(), "=== Current Scope (level 0) ===\n  (empty)\n");
    env.declare_variable("x", &DataType::Int, true);
    env.declare_function("f", &DataType::Str, "m");
    env.declare_array_constant("a", &DataType::Float, &[3, 4], false);
    assert_eq!(
        env.scope_listing(),
        "=== Current Scope (level 0) ===\n  x : variable (int) (var)\n  m.f : function (str) [module=m] (val)\n  a : variable (float) array[3,4] (val)\n"
    );
    env.enter_scope();
    assert_eq!(
        env.all_scopes_listing(),
        "=== All Scopes (2 levels) ===\nScope 0:\n  x : variable (int) (var)\n  m.f : function (str) [module=m] (val)\n  a : variable (float) array[3,4] (val)\nScope 1:\n  (empty)\n"
    );
    env.exit_scope();
    env.exit_scope();
    assert_eq!(env.scope_listing(), "No scopes available\n");
    assert_eq!(env.all_scopes_listing(), "=== All Scopes (0 levels) ===\n");
}
