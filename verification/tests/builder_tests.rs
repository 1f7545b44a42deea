use gobol::ast::{EnumDefinition, EnumVariant, Expression, ExternBlock, Function, ImplBlock, Parameter, Program, Statement, StructDefinition, StructField, TypeNode};
use gobol::builder::IRBuilder;
use gobol::environment::DataType;
use gobol::ir::{IRBlock, IRExpr, IRStmt, LitValue};

fn var(n: &str) -> IRExpr {
    IRExpr::Variable(n.to_string())
}

fn num(n: i64) -> IRExpr {
    IRExpr::Literal(LitValue::Int(n))
}

fn add(l: IRExpr, r: IRExpr) -> IRExpr {
    IRExpr::Binary { op: "+".to_string(), left: Box::new(l), right: Box::new(r) }
}

fn call(f: &str, args: Vec<IRExpr>) -> IRExpr {
    IRExpr::Call { func: f.to_string(), args, generic_args: vec![] }
}

fn strings(v: &[&str]) -> Vec<String> {
    v.iter().map(|s| s.to_string()).collect()
}

/// A compact rendering of an expression, for comparisons.
fn show(e: &IRExpr) -> String {
    match e {
        IRExpr::Variable(n) => n.clone(),
        IRExpr::Literal(LitValue::Int(n)) => n.to_string(),
        IRExpr::Binary { op, left, right } => format!("({} {} {})", show(left), op, show(right)),
        IRExpr::Unary { op, operand } => format!("{}{}", op, show(operand)),
        IRExpr::Call { func, args, .. } => {
            format!("{}({})", func, args.iter().map(show).collect::<Vec<_>>().join(", "))
        }
        IRExpr::Empty => "<empty>".to_string(),
        _ => "?".to_string(),
    }
}

fn builder_with_macros() -> IRBuilder {
    let mut b = IRBuilder::new();
    // #[expand] func add(a, b) { a + b }
    b.register_expand_function(
        "add".to_string(),
        strings(&["a", "b"]),
        IRBlock { statements: vec![IRStmt::Expression(add(var("a"), var("b")))] },
    );
    // #[expand] func twice(v) { return add(v, v); }
    b.register_expand_function(
        "twice".to_string(),
        strings(&["v"]),
        IRBlock { statements: vec![IRStmt::Return(Some(call("add", vec![var("v"), var("v")])))] },
    );
    b
}

#[test]
fn macro_arguments_are_substituted_as_trees() {
    let b = builder_with_macros();
    let expanded = b.try_expand_call_ast("add", &vec![var("x"), add(var("y"), num(1))]).unwrap();
    assert_eq!(show(&expanded), "(x + (y + 1))");
}

#[test]
fn macro_calls_inside_macros_are_expanded() {
    let b = builder_with_macros();
    let expanded = b.try_expand_call_ast("twice", &vec![var("z")]).unwrap();
    assert_eq!(show(&expanded), "(z + z)");
    let nested = IRExpr::Unary { op: "-".to_string(), operand: Box::new(call("twice", vec![call("add", vec![num(1), num(2)])])) };
    assert_eq!(show(&b.expand_nested_macros(&nested, 0, 32)), "-((1 + 2) + (1 + 2))");
}

#[test]
fn calls_that_are_not_expanded() {
    let b = builder_with_macros();
    assert!(b.try_expand_call_ast("print", &vec![var("x")]).is_none());
    assert!(b.try_expand_call_ast("add", &vec![var("x")]).is_none());
    assert!(b.try_expand_call_ast_depth("add", &vec![var("x"), var("y")], 32, 32).is_none());
    let e = call("twice", vec![var("q")]);
    assert_eq!(show(&b.expand_nested_macros(&e, 32, 32)), "twice(q)");
    assert_eq!(show(&b.expand_nested_macros(&call("print", vec![call("twice", vec![var("q")])]), 0, 32)), "print((q + q))");
}

#[test]
fn macro_result_is_first_return_else_last_expression() {
    let b = IRBuilder::new();
    let body = IRBlock {
        statements: vec![
            IRStmt::Expression(var("early")),
            IRStmt::Return(None),
            IRStmt::Return(Some(var("first"))),
            IRStmt::Return(Some(var("second"))),
        ],
    };
    assert_eq!(show(&b.expand_result_expr(&body).unwrap()), "first");
    let body = IRBlock { statements: vec![IRStmt::Expression(var("a")), IRStmt::Break, IRStmt::Expression(var("b")), IRStmt::Continue] };
    assert_eq!(show(&b.expand_result_expr(&body).unwrap()), "b");
    assert!(b.expand_result_expr(&IRBlock { statements: vec![IRStmt::Break] }).is_none());
}

#[test]
fn substitution_binds_the_last_parameter_of_a_name() {
    let b = IRBuilder::new();
    let e = add(var("p"), call("f", vec![var("q")]));
    let out = b.subst_expr(&e, &strings(&["p", "q", "p"]), &vec![num(1), num(2), num(3)]);
    assert_eq!(show(&out), "(3 + f(2))");
}

#[test]
fn generic_scopes_nest() {
    let mut b = IRBuilder::new();
    assert_eq!(b.lookup_generic("T"), None);
    b.push_generic_scope(&strings(&["T", "U"]));
    b.push_generic_scope(&strings(&["V"]));
    assert_eq!(b.lookup_generic("T"), Some(DataType::Struct("T".to_string())));
    assert_eq!(b.lookup_generic("V"), Some(DataType::Struct("V".to_string())));
    b.pop_generic_scope();
    assert_eq!(b.lookup_generic("V"), None);
    b.pop_generic_scope();
    b.pop_generic_scope();
    assert_eq!(b.lookup_generic("U"), None);
}

#[test]
fn expression_stack_and_attributes() {
    let mut b = IRBuilder::new();
    b.push_expr(var("x"));
    assert_eq!(show(&b.pop_expr()), "x");
    assert_eq!(show(&b.pop_expr()), "<empty>");
    assert!(IRBuilder::has_attr(&strings(&["inline", "expand"]), "expand"));
    assert!(!IRBuilder::has_attr(&strings(&["inline"]), "expand"));
    assert_eq!(IRBuilder::operator_to_method("<="), Some("le"));
    assert_eq!(IRBuilder::operator_to_method("&&"), None);
    b.set_current_file("main.gbl".to_string());
    b.error("bad");
}

#[test]
fn substitution_without_parameters_keeps_the_expression() {
    let b = IRBuilder::new();
    let e = add(var("p"), call("f", vec![IRExpr::Unary { op: "!".to_string(), operand: Box::new(var("q")) }]));
    assert_eq!(show(&b.subst_expr(&e, &vec![], &vec![])), show(&e));
}

fn basic(name: &str) -> TypeNode {
    TypeNode::Basic(name.to_string())
}

fn array_of(element: TypeNode, size: Option<i64>) -> TypeNode {
    TypeNode::Array {
        element: Box::new(element),
        size: size.map(|n| Box::new(Expression::NumberLiteral(n.to_string()))),
    }
}

#[test]
fn annotations_lower_to_types() {
    let mut b = IRBuilder::new();
    assert_eq!(b.ast_type_to_data_type(None), DataType::None_);
    assert_eq!(b.ast_type_to_data_type(Some(&basic("none"))), DataType::None_);
    assert_eq!(b.ast_type_to_data_type(Some(&basic("Point"))), DataType::Struct("Point".to_string()));
    let vec_int = TypeNode::Generic { base: "vec".to_string(), args: vec![basic("int")] };
    assert_eq!(b.ast_type_to_data_type(Some(&vec_int)), DataType::Int);
    assert_eq!(
        b.ast_type_to_data_type(Some(&array_of(basic("float"), None))),
        DataType::Array(Box::new(DataType::Float))
    );
    assert_eq!(
        b.ast_type_to_data_type(Some(&TypeNode::Nullable(Box::new(basic("str"))))),
        DataType::Nullable(Box::new(DataType::Str))
    );
    assert_eq!(b.ast_type_to_data_type(Some(&TypeNode::Function)), DataType::Unknown);
    b.push_generic_scope(&strings(&["T"]));
    assert_eq!(b.ast_type_to_data_type(Some(&basic("T"))), DataType::Struct("T".to_string()));
}

#[test]
fn struct_definitions_are_lowered() {
    let mut b = IRBuilder::new();
    b.visit_struct_definition(&StructDefinition {
        name: "Pair".to_string(),
        generic_params: strings(&["T"]),
        fields: vec![
            StructField { name: "first".to_string(), field_type: Some(Box::new(basic("T"))) },
            StructField { name: "count".to_string(), field_type: Some(Box::new(basic("int"))) },
        ],
        attributes: strings(&["no_gc"]),
    });
    let ir = b.lowered_program();
    assert_eq!(ir.structs.len(), 1);
    let s = &ir.structs[0];
    assert_eq!(s.name, "Pair");
    assert_eq!(s.generic_params, strings(&["T"]));
    assert_eq!(s.attributes, strings(&["no_gc"]));
    assert_eq!(s.fields[0].name, "first");
    assert_eq!(s.fields[0].ty, DataType::Struct("T".to_string()));
    assert_eq!(s.fields[1].name, "count");
    assert_eq!(s.fields[1].ty, DataType::Int);
    // the struct's generic scope is gone afterwards
    assert_eq!(b.lookup_generic("T"), None);
}

#[test]
fn enums_lower_to_tagged_structs_with_constructors() {
    let mut b = IRBuilder::new();
    b.visit_enum_definition(&EnumDefinition {
        name: "Maybe".to_string(),
        generic_params: strings(&["T"]),
        variants: vec![
            EnumVariant { name: "Just".to_string(), payload_type: Some(Box::new(basic("T"))) },
            EnumVariant { name: "Nothing".to_string(), payload_type: None },
        ],
        attributes: vec![],
    });
    let ir = b.lowered_program();
    let s = &ir.structs[0];
    assert_eq!(s.name, "Maybe");
    assert_eq!(s.fields.len(), 2);
    assert_eq!(s.fields[0].name, "_tag");
    assert_eq!(s.fields[0].ty, DataType::Int);
    assert_eq!(s.fields[1].name, "_0");
    assert_eq!(s.fields[1].ty, DataType::Struct("T".to_string()));
    assert_eq!(ir.impls.len(), 1);
    let ctors = &ir.impls[0].methods;
    assert_eq!(ctors.len(), 2);
    let just = &ctors[0];
    assert_eq!(just.name, "Just");
    assert!(just.is_method);
    assert_eq!(just.params.len(), 2);
    assert_eq!(just.params[1].name, "_val");
    assert_eq!(just.return_type, DataType::Struct("Maybe".to_string()));
    let body = &just.body.as_ref().unwrap().statements;
    assert_eq!(body.len(), 3);
    match &body[1] {
        IRStmt::Assignment { target: IRExpr::MemberAccess { member, .. }, value } => {
            assert_eq!(member, "_0");
            assert_eq!(show(value), "_val");
        }
        _ => panic!("expected the payload assignment"),
    }
    let nothing = &ctors[1];
    assert_eq!(nothing.params.len(), 1);
    let body = &nothing.body.as_ref().unwrap().statements;
    assert_eq!(body.len(), 2);
    match &body[0] {
        IRStmt::Assignment { value, .. } => assert_eq!(show(value), "1"),
        _ => panic!("expected the tag assignment"),
    }
}

#[test]
fn declarations_record_their_types() {
    let mut b = IRBuilder::new();
    b.visit_declaration("x", None, Some(num(1)));
    b.visit_declaration("s", None, Some(IRExpr::Literal(LitValue::Str("hi".to_string()))));
    b.visit_declaration("f", Some(&basic("float")), None);
    b.visit_declaration("u", None, None);
    assert_eq!(b.infer_expr_type(&var("x")), DataType::Int);
    assert_eq!(b.infer_expr_type(&var("s")), DataType::Str);
    assert_eq!(b.infer_expr_type(&var("f")), DataType::Float);
    assert_eq!(b.infer_expr_type(&var("u")), DataType::Int);
    assert_eq!(b.infer_expr_type(&add(var("x"), var("f"))), DataType::Float);
    assert_eq!(b.infer_expr_type(&add(var("x"), var("s"))), DataType::Str);
    let less = IRExpr::Binary { op: "<".to_string(), left: Box::new(var("x")), right: Box::new(num(2)) };
    assert_eq!(b.infer_expr_type(&less), DataType::Bool);
    assert_eq!(b.infer_expr_type(&IRExpr::ArrayLiteral(vec![])), DataType::Array(Box::new(DataType::Unknown)));
    assert_eq!(b.infer_expr_type(&call("missing", vec![])), DataType::Int);
    assert_eq!(b.current_statements().len(), 4);
    match &b.current_statements()[3] {
        IRStmt::Declaration { name, ty, init } => {
            assert_eq!(name, "u");
            assert_eq!(*ty, DataType::Int);
            assert!(init.is_none());
        }
        _ => panic!("expected a declaration"),
    }
}

#[test]
fn fixed_size_arrays_start_as_new_arrays() {
    let mut b = IRBuilder::new();
    b.visit_declaration("grid", Some(&array_of(array_of(basic("int"), Some(3)), Some(4))), None);
    b.visit_declaration("buf", Some(&array_of(basic("int"), Some(5))), None);
    let stmts = b.current_statements();
    match &stmts[0] {
        IRStmt::Declaration { ty, init: Some(init), .. } => {
            assert_eq!(*ty, DataType::Array(Box::new(DataType::Array(Box::new(DataType::Int)))));
            assert_eq!(show(init), "gobol_array_new_2d(4, 3)");
        }
        _ => panic!("expected a declaration with an initializer"),
    }
    match &stmts[1] {
        IRStmt::Declaration { init: Some(init), .. } => assert_eq!(show(init), "gobol_array_new_with_size(5)"),
        _ => panic!("expected a declaration with an initializer"),
    }
}

#[test]
fn block_values_come_from_their_last_return() {
    let mut b = IRBuilder::new();
    let mut sub = b.sub_builder();
    sub.push_expr(num(7));
    sub.visit_return_statement(true);
    sub.visit_declaration("t", None, Some(num(1)));
    sub.push_expr(num(8));
    sub.visit_expression_statement(false);
    let value = b.absorb_block_value(sub);
    assert_eq!(show(&value), "7");
    let stmts = b.current_statements();
    assert_eq!(stmts.len(), 3);
    match &stmts[0] {
        IRStmt::Expression(e) => assert_eq!(show(e), "7"),
        _ => panic!("the return becomes an expression statement"),
    }
    assert_eq!(b.infer_expr_type(&var("t")), DataType::Int);
    let empty = b.sub_builder();
    assert_eq!(show(&b.absorb_block_value(empty)), "<empty>");
}

#[test]
fn simple_statements_are_lowered() {
    let mut b = IRBuilder::new();
    b.push_expr(num(1));
    b.visit_expression_statement(true);
    b.visit_return_statement(false);
    b.visit_break_statement();
    b.visit_continue_statement();
    let stmts = b.current_statements();
    assert_eq!(stmts.len(), 4);
    assert!(matches!(&stmts[0], IRStmt::Return(Some(_))));
    assert!(matches!(&stmts[1], IRStmt::Return(None)));
    assert!(matches!(&stmts[2], IRStmt::Break));
    assert!(matches!(&stmts[3], IRStmt::Continue));
}

fn function_node(name: &str, params: Vec<(&str, Option<TypeNode>)>, ret: Option<TypeNode>, attributes: &[&str]) -> Function {
    Function {
        name: name.to_string(),
        generic_params: vec![],
        parameters: Some(
            params.into_iter().map(|(n, t)| Parameter { name: n.to_string(), param_type: t.map(Box::new) }).collect(),
        ),
        return_type: ret.map(Box::new),
        attributes: strings(attributes),
        body: None,
        is_variadic: false,
    }
}

#[test]
fn functions_are_lowered_with_their_signatures() {
    let mut b = IRBuilder::new();
    let f = function_node("id", vec![("x", Some(basic("t"))), ("n", Some(basic("int")))], Some(basic("t")), &[]);
    assert_eq!(b.extract_generic_params(&f), strings(&["t"]));
    b.enter_function(&f);
    assert_eq!(b.infer_expr_type(&var("n")), DataType::Int);
    assert_eq!(b.infer_expr_type(&var("x")), DataType::Struct("t".to_string()));
    let current = b.current_function_ir().expect("a function is being lowered");
    assert_eq!(current.name, "id");
    assert!(!current.is_method);
    b.push_expr(var("x"));
    b.visit_return_statement(true);
    b.leave_function(&f);
    assert!(b.current_function_ir().is_none());
    let ir = b.lowered_program();
    assert_eq!(ir.functions.len(), 1);
    assert_eq!(ir.functions[0].return_type, DataType::Struct("t".to_string()));
    assert_eq!(ir.functions[0].body.as_ref().unwrap().statements.len(), 1);
    assert!(ir.main_function.is_none());
    assert!(b.current_statements().is_empty());
}

#[test]
fn main_returns_int_and_expand_functions_become_macros() {
    let mut b = IRBuilder::new();
    let m = function_node("main", vec![], None, &[]);
    b.enter_function(&m);
    b.leave_function(&m);
    assert_eq!(b.lowered_program().main_function, Some("main".to_string()));
    assert_eq!(b.lowered_program().functions[0].return_type, DataType::Int);
    let sq = function_node("square", vec![("v", Some(basic("int")))], Some(basic("int")), &["expand"]);
    b.enter_function(&sq);
    b.visit_binary_expression("*", var("v"), var("v"));
    b.visit_expression_statement(true);
    b.leave_function(&sq);
    let e = b.try_expand_call_ast("square", &vec![num(3)]).expect("square is a macro");
    match &e {
        IRExpr::MethodCall { object, method, args, .. } => {
            assert_eq!(method, "mul");
            assert_eq!(show(object), "3");
            assert_eq!(show(&args[0]), "3");
        }
        _ => panic!("expected v * v with v bound to 3"),
    }
    let intrinsic = function_node("raw", vec![], Some(basic("int")), &["intrinsic"]);
    b.enter_function(&intrinsic);
    b.leave_function(&intrinsic);
    assert!(b.lowered_program().functions[2].body.is_none());
}

#[test]
fn impl_methods_are_qualified_and_take_self() {
    let mut b = IRBuilder::new();
    let block = ImplBlock {
        struct_name: "Vec".to_string(),
        trait_name: None,
        generic_params: strings(&["T"]),
        items: vec![],
    };
    b.visit_impl_block(&block);
    let frame = b.enter_impl_method();
    let len = function_node("len", vec![], Some(basic("int")), &[]);
    b.enter_function(&len);
    let current = b.current_function_ir().expect("a method is being lowered");
    assert_eq!(current.name, "Vec<T>::len");
    assert_eq!(current.params.len(), 1);
    assert_eq!(current.params[0].name, "self");
    assert_eq!(current.params[0].ty, DataType::Struct("Vec<T>".to_string()));
    b.leave_function(&len);
    let method = b.leave_impl_method(frame).expect("the method");
    assert!(method.is_method);
    assert_eq!(method.struct_name, Some("Vec<T>".to_string()));
    b.leave_impl_block(&block, vec![method]);
    let ir = b.lowered_program();
    assert!(ir.functions.is_empty());
    assert_eq!(ir.impls.len(), 1);
    assert_eq!(ir.impls[0].struct_name, "Vec");
    assert_eq!(ir.impls[0].methods[0].name, "Vec<T>::len");
}

#[test]
fn expressions_are_lowered() {
    let mut b = IRBuilder::new();
    b.visit_binary_expression("+=", var("x"), num(1));
    match b.pop_expr() {
        IRExpr::Assignment { target, value } => {
            assert_eq!(show(&target), "x");
            match *value {
                IRExpr::MethodCall { method, .. } => assert_eq!(method, "add"),
                _ => panic!("x += 1 assigns x.add(1)"),
            }
        }
        _ => panic!("expected an assignment"),
    }
    b.visit_binary_expression("&&", var("p"), var("q"));
    assert_eq!(show(&b.pop_expr()), "(p && q)");
    b.visit_binary_expression("<", var("p"), var("q"));
    assert!(matches!(b.pop_expr(), IRExpr::MethodCall { .. }));
    let f = Expression::Identifier("f".to_string());
    b.visit_unary_expression("&", Some(&f), IRExpr::Empty);
    assert!(matches!(b.pop_expr(), IRExpr::FuncRef(name) if name == "f"));
    b.visit_unary_expression("-", Some(&f), var("f"));
    assert_eq!(show(&b.pop_expr()), "-f");
    b.visit_cast_expression(num(1), &basic("float"));
    assert!(matches!(b.pop_expr(), IRExpr::Cast { target: DataType::Float, .. }));
    b.visit_array_index(var("a"), num(0));
    assert!(matches!(b.pop_expr(), IRExpr::ArrayIndex { .. }));
}

#[test]
fn fields_inside_impl_blocks_are_members_of_self() {
    let mut b = IRBuilder::new();
    b.visit_struct_definition(&StructDefinition {
        name: "Counter".to_string(),
        generic_params: vec![],
        fields: vec![StructField { name: "count".to_string(), field_type: Some(Box::new(basic("int"))) }],
        attributes: vec![],
    });
    b.visit_identifier("count");
    assert_eq!(show(&b.pop_expr()), "count");
    let block = ImplBlock { struct_name: "Counter".to_string(), trait_name: None, generic_params: vec![], items: vec![] };
    b.visit_impl_block(&block);
    b.visit_identifier("count");
    match b.pop_expr() {
        IRExpr::MemberAccess { object, member } => {
            assert_eq!(show(&object), "self");
            assert_eq!(member, "count");
        }
        _ => panic!("a field inside the impl block is self.count"),
    }
    b.visit_identifier("other");
    assert_eq!(show(&b.pop_expr()), "other");
    b.leave_impl_block(&block, vec![]);
}

#[test]
fn extern_functions_are_lowered_without_bodies() {
    let mut sqrt = function_node("sqrt", vec![("x", Some(TypeNode::Basic("float".to_string())))], Some(TypeNode::Basic("float".to_string())), &[]);
    sqrt.attributes = strings(&["header"]);
    let mut printf = function_node("printf", vec![("fmt", Some(TypeNode::Basic("str".to_string())))], Some(TypeNode::Basic("int".to_string())), &[]);
    printf.is_variadic = true;
    let program = Program {
        statements: vec![
            Statement::Function(Box::new(function_node("main", vec![], None, &[]))),
            Statement::ExternBlock(ExternBlock { library: Some("m".to_string()), header: None, functions: vec![sqrt] }),
            Statement::ExternBlock(ExternBlock { library: None, header: None, functions: vec![printf] }),
        ],
    };
    let mut b = IRBuilder::new();
    b.declare_extern_functions(&program);
    let ir = b.finish().expect("no errors");
    assert_eq!(ir.functions.len(), 2);
    let f = &ir.functions[0];
    assert_eq!(f.name, "sqrt");
    assert_eq!(f.params.len(), 1);
    assert_eq!(f.params[0].name, "x");
    assert_eq!(f.params[0].ty, DataType::Float);
    assert_eq!(f.return_type, DataType::Float);
    assert!(f.body.is_none());
    assert_eq!(f.attributes, strings(&["extern"]));
    assert!(!f.is_main && !f.is_method && f.struct_name.is_none() && !f.is_variadic);
    let g = &ir.functions[1];
    assert_eq!(g.name, "printf");
    assert_eq!(g.return_type, DataType::Int);
    assert!(g.is_variadic);
}

#[test]
fn struct_definitions_pass_takes_structs_only() {
    let point = StructDefinition {
        name: "Point".to_string(),
        generic_params: vec![],
        fields: vec![StructField { name: "x".to_string(), field_type: Some(Box::new(TypeNode::Basic("int".to_string()))) }],
        attributes: vec![],
    };
    let program = Program {
        statements: vec![Statement::Function(Box::new(function_node("main", vec![], None, &[]))), Statement::StructDefinition(point)],
    };
    let mut b = IRBuilder::new();
    b.declare_struct_definitions(&program);
    let ir = b.finish().expect("no errors");
    assert_eq!(ir.structs.len(), 1);
    assert_eq!(ir.structs[0].name, "Point");
    assert_eq!(ir.structs[0].fields[0].name, "x");
    assert_eq!(ir.structs[0].fields[0].ty, DataType::Int);
    assert!(ir.functions.is_empty());
}

#[test]
fn a_build_with_errors_returns_them() {
    let mut b = IRBuilder::new();
    b.error("first");
    b.error("second");
    match b.finish() {
        Ok(_) => panic!("errors were reported"),
        Err(e) => assert_eq!(e, strings(&["first", "second"])),
    }
}
