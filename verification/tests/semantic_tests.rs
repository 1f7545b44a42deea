use gobol::ast::{
    Block, ExternBlock, ImplBlock, ImplItem, MatchPattern, Parameter, StructFieldInit, EnumDefinition, EnumVariant, Expression, Function, Program, Statement, StructDefinition, StructField, TraitDefinition,
    TraitMethod, TypeNode,
};
use gobol::environment::DataType;
use gobol::error::ErrorFormatter;
use gobol::semantic_analyzer::{
    header_context, header_line_action, include_directive, module_path_parts, system_include_root, BuildMode, HeaderVisits, IncludeDirective,
    LineAction, SemanticAnalyzer,
};

fn basic(name: &str) -> TypeNode {
    TypeNode::Basic(name.to_string())
}

fn function(name: &str, ret: Option<TypeNode>, attributes: Vec<&str>) -> Function {
    Function {
        name: name.to_string(),
        generic_params: vec![],
        parameters: None,
        return_type: ret.map(Box::new),
        attributes: attributes.into_iter().map(|a| a.to_string()).collect(),
        body: None,
        is_variadic: false,
    }
}

#[test]
fn header_declares_function_accepts_newline_between_name_and_paren() {
    let hdr = "int\nprintf(const char * restrict, ...);\n";
    assert!(
        SemanticAnalyzer::header_declares_function(hdr, "printf"),
        "expected `printf` to be found across a line break"
    );
}

#[test]
fn header_declares_function_respects_word_boundary() {
    let hdr = "int fprintf(FILE *, const char *, ...);";
    assert!(!SemanticAnalyzer::header_declares_function(hdr, "printf"));
    assert!(SemanticAnalyzer::header_declares_function(hdr, "fprintf"));
}

#[test]
fn header_declaration_needs_a_paren_and_a_name() {
    assert!(!SemanticAnalyzer::header_declares_function("int printf;", "printf"));
    assert!(!SemanticAnalyzer::header_declares_function("int printf(void);", ""));
    assert!(SemanticAnalyzer::header_declares_function("printf \t\x0b\x0c(", "printf"));
    assert!(!SemanticAnalyzer::header_declares_function("my_printf(x)", "printf"));
}

#[test]
fn fresh_analyzer_has_no_errors() {
    let a = SemanticAnalyzer::new();
    assert!(!a.has_errors());
    assert!(a.get_errors().is_empty());
    assert!(a.get_extern_libs().is_empty());
    assert_eq!(a.get_current_type(), DataType::Unknown);
}

#[test]
fn operators_map_to_trait_methods() {
    assert_eq!(SemanticAnalyzer::operator_to_method("+"), Some("add"));
    assert_eq!(SemanticAnalyzer::operator_to_method("%"), Some("rem"));
    assert_eq!(SemanticAnalyzer::operator_to_method("=="), Some("eq"));
    assert_eq!(SemanticAnalyzer::operator_to_method(">="), Some("ge"));
    assert_eq!(SemanticAnalyzer::operator_to_method("&&"), None);
}

#[test]
fn error_at_without_formatter_is_plain() {
    let mut a = SemanticAnalyzer::new();
    a.error_at(3, 4, "boom");
    assert!(a.has_errors());
    assert_eq!(a.get_errors(), &vec!["Error: boom".to_string()]);
    assert_eq!(a.get_structured_errors(), &vec![(3, 4, "boom".to_string())]);
}

#[test]
fn error_at_with_formatter_quotes_the_source() {
    let f = ErrorFormatter::new("main.gbl", "let x = 1\n");
    let expected = f.format_error(1, 4, 1, "error", "bad", true);
    let mut a = SemanticAnalyzer::new();
    a.set_error_formatter(f);
    a.error_at(1, 4, "bad");
    assert_eq!(a.get_errors(), &vec![expected]);
}

#[test]
fn type_compatibility_allows_int_for_float() {
    let mut a = SemanticAnalyzer::new();
    assert!(a.check_type_compatibility(DataType::Float, DataType::Int, "x"));
    assert!(!a.has_errors());
    assert!(!a.check_type_compatibility(DataType::Int, DataType::Str, "assignment"));
    assert_eq!(a.get_errors(), &vec!["Error: Type mismatch in assignment: expected int, got str".to_string()]);
}

#[test]
fn type_annotations_denote_types() {
    let mut a = SemanticAnalyzer::new();
    assert_eq!(a.get_data_type_from_ast(None), DataType::None_);
    assert_eq!(a.get_data_type_from_ast(Some(&basic("int"))), DataType::Int);
    assert_eq!(
        a.get_data_type_from_ast(Some(&TypeNode::Nullable(Box::new(basic("float"))))),
        DataType::Nullable(Box::new(DataType::Float))
    );
    assert_eq!(
        a.get_data_type_from_ast(Some(&TypeNode::Array { element: Box::new(basic("str")), size: None })),
        DataType::Array(Box::new(DataType::Str))
    );
    let lower_vec = TypeNode::Generic { base: "vec".to_string(), args: vec![basic("bool")] };
    assert_eq!(a.get_data_type_from_ast(Some(&lower_vec)), DataType::Bool);
    let upper_vec = TypeNode::Generic { base: "Vec".to_string(), args: vec![basic("int")] };
    assert_eq!(a.get_data_type_from_ast(Some(&upper_vec)), DataType::Struct("Vec".to_string()));
    assert_eq!(a.get_data_type_from_ast(Some(&TypeNode::Function)), DataType::Unknown);
    assert!(!a.has_errors());
    assert_eq!(a.get_data_type_from_ast(Some(&basic("Foo"))), DataType::Unknown);
    assert_eq!(a.get_errors(), &vec!["Error: Unknown type: Foo".to_string()]);
}

#[test]
fn struct_definition_makes_its_name_a_type() {
    let mut a = SemanticAnalyzer::new();
    let point = StructDefinition {
        name: "Point".to_string(),
        generic_params: vec![],
        fields: vec![
            StructField { name: "x".to_string(), field_type: Some(Box::new(basic("int"))) },
            StructField { name: "y".to_string(), field_type: Some(Box::new(basic("float"))) },
        ],
        attributes: vec![],
    };
    a.visit_struct_definition(&point);
    assert!(!a.has_errors());
    assert_eq!(a.get_data_type_from_ast(Some(&basic("Point"))), DataType::Struct("Point".to_string()));
}

#[test]
fn generic_struct_fields_see_their_parameters() {
    let mut a = SemanticAnalyzer::new();
    let boxed = StructDefinition {
        name: "Box".to_string(),
        generic_params: vec!["T".to_string()],
        fields: vec![StructField { name: "value".to_string(), field_type: Some(Box::new(basic("T"))) }],
        attributes: vec![],
    };
    a.visit_struct_definition(&boxed);
    assert!(!a.has_errors());
    // outside the struct, `T` is not a type
    assert_eq!(a.get_data_type_from_ast(Some(&basic("T"))), DataType::Unknown);
    assert!(a.has_errors());
}

#[test]
fn enum_definition_makes_its_name_a_type() {
    let mut a = SemanticAnalyzer::new();
    let shape = EnumDefinition {
        name: "Shape".to_string(),
        generic_params: vec![],
        variants: vec![
            EnumVariant { name: "Circle".to_string(), payload_type: Some(Box::new(basic("float"))) },
            EnumVariant { name: "Empty".to_string(), payload_type: None },
            EnumVariant { name: "Named".to_string(), payload_type: Some(Box::new(basic("Missing"))) },
        ],
        attributes: vec![],
    };
    a.visit_enum_definition(&shape);
    assert_eq!(a.get_errors(), &vec!["Error: Unknown type: Missing".to_string()]);
    assert_eq!(a.get_data_type_from_ast(Some(&basic("Shape"))), DataType::Struct("Shape".to_string()));
}

#[test]
fn arithmetic_types() {
    let mut a = SemanticAnalyzer::new();
    a.visit_binary_expression("+", None, None, DataType::Int, DataType::Float);
    assert_eq!(a.get_current_type(), DataType::Float);
    a.visit_binary_expression("*", None, None, DataType::Int, DataType::Int);
    assert_eq!(a.get_current_type(), DataType::Int);
    a.visit_binary_expression("+", None, None, DataType::Str, DataType::Int);
    assert_eq!(a.get_current_type(), DataType::Str);
    assert!(!a.has_errors());
    a.visit_binary_expression("-", None, None, DataType::Str, DataType::Int);
    assert_eq!(a.get_current_type(), DataType::Unknown);
    assert_eq!(a.get_errors(), &vec!["Error: Operator '-' requires numeric operands".to_string()]);
}

#[test]
fn struct_operands_need_operator_methods() {
    let mut a = SemanticAnalyzer::new();
    let v = DataType::Struct("Vec2".to_string());
    a.visit_binary_expression("-", None, None, v.clone(), v.clone());
    assert_eq!(a.get_current_type(), DataType::Unknown);
    assert_eq!(
        a.get_errors(),
        &vec!["Error: Type 'Vec2' does not implement operator '-' (method 'Vec2::sub' not found)".to_string()]
    );
}

#[test]
fn comparisons_and_logic() {
    let mut a = SemanticAnalyzer::new();
    let opt = DataType::Nullable(Box::new(DataType::Int));
    a.visit_binary_expression("==", None, None, opt.clone(), DataType::None_);
    assert_eq!(a.get_current_type(), DataType::Bool);
    a.visit_binary_expression("<", None, None, DataType::Int, DataType::Float);
    assert_eq!(a.get_current_type(), DataType::Bool);
    assert!(!a.has_errors());
    a.visit_binary_expression("<", None, None, opt, DataType::None_);
    assert_eq!(a.get_current_type(), DataType::Unknown);
    a.visit_binary_expression("&&", None, None, DataType::Bool, DataType::Int);
    assert_eq!(a.get_current_type(), DataType::Bool);
    a.visit_binary_expression("<", None, None, DataType::Int, DataType::Str);
    assert_eq!(a.get_current_type(), DataType::Bool);
    assert_eq!(
        a.get_errors(),
        &vec![
            "Error: Cannot compare int? and none with '<'".to_string(),
            "Error: Logical operators require boolean operands".to_string(),
            "Error: Cannot compare int and str".to_string(),
        ]
    );
}

#[test]
fn range_and_unknown_operators() {
    let mut a = SemanticAnalyzer::new();
    a.visit_binary_expression("..", None, None, DataType::Int, DataType::Int);
    assert_eq!(a.get_current_type(), DataType::Struct("Range".to_string()));
    assert_eq!(a.get_data_type_from_ast(Some(&basic("Range"))), DataType::Struct("Range".to_string()));
    assert!(!a.has_errors());
    a.visit_binary_expression("^", None, None, DataType::Int, DataType::Int);
    assert_eq!(a.get_current_type(), DataType::Unknown);
    assert_eq!(a.get_errors(), &vec!["Error: Unknown operator: ^".to_string()]);
}

#[test]
fn assignments_need_a_mutable_target() {
    let mut a = SemanticAnalyzer::new();
    let x = Expression::Identifier("x".to_string());
    a.visit_binary_expression("=", Some(&x), None, DataType::Int, DataType::Int);
    assert_eq!(a.get_current_type(), DataType::Unknown);
    a.visit_binary_expression("+=", Some(&x), None, DataType::Int, DataType::Int);
    assert_eq!(a.get_current_type(), DataType::Unknown);
    let lit = Expression::NumberLiteral("1".to_string());
    a.visit_binary_expression("-=", Some(&lit), None, DataType::Int, DataType::Int);
    assert_eq!(
        a.get_errors(),
        &vec![
            "Error: Left side of assignment must be a mutable variable or array element".to_string(),
            "Error: Undeclared variable 'x'".to_string(),
            "Error: Left side of compound assignment must be a variable".to_string(),
        ]
    );
}

#[test]
fn std_traits_and_validation() {
    let mut a = SemanticAnalyzer::new();
    a.register_std_traits();
    a.register_std_traits();
    a.validate_trait_impls();
    assert!(!a.has_errors());
}

#[test]
fn program_signatures_are_declared_ahead() {
    let mut a = SemanticAnalyzer::new();
    let program = Program {
        statements: vec![
            Statement::Function(Box::new(function("origin", Some(basic("Point")), vec![]))),
            Statement::StructDefinition(StructDefinition {
                name: "Point".to_string(),
                generic_params: vec![],
                fields: vec![StructField { name: "x".to_string(), field_type: Some(Box::new(basic("int"))) }],
                attributes: vec![],
            }),
            Statement::TraitDefinition(TraitDefinition {
                name: "Show".to_string(),
                generic_params: vec![],
                methods: vec![TraitMethod { name: "show".to_string(), parameters: vec![], attributes: vec![] }],
                attributes: vec![],
            }),
            Statement::Function(Box::new(function("later", Some(basic("Point")), vec![]))),
        ],
    };
    a.declare_program_signatures(&program);
    // `origin` comes before `Point` is known
    assert_eq!(a.get_errors(), &vec!["Error: Unknown type: Point".to_string()]);
}

#[test]
fn release_builds_skip_debug_functions() {
    let program = Program {
        statements: vec![Statement::Function(Box::new(function("trace", Some(basic("Missing")), vec!["debug"])))],
    };
    let mut debug = SemanticAnalyzer::new();
    debug.declare_program_signatures(&program);
    assert!(debug.has_errors());
    let mut release = SemanticAnalyzer::new();
    release.set_build_mode(BuildMode::Release);
    release.declare_program_signatures(&program);
    assert!(!release.has_errors());
}

#[test]
fn module_candidates_in_order() {
    let a = SemanticAnalyzer::new();
    let parts = vec!["a".to_string(), "b".to_string()];
    let got = a.module_path_candidates(&parts, Some("src"));
    let expected: Vec<String> = vec![
        "src/a/b.gbl",
        "src/a/b/mod.gbl",
        "src/a/b/__setup__.gbl",
        "src/lib/a/b.gbl",
        "lib/a/b.gbl",
        "lib/a/b/mod.gbl",
        "lib/a/b/__setup__.gbl",
        "lib/src/a/b.gbl",
        "lib/lib/a/b.gbl",
        "a/b.gbl",
        "a/b/mod.gbl",
        "a/b/__setup__.gbl",
    ]
    .into_iter()
    .map(|s| s.to_string())
    .collect();
    assert_eq!(got, expected);
    let mut b = SemanticAnalyzer::new();
    b.set_lib_paths(vec![]);
    let only = b.module_path_candidates(&vec!["m".to_string()], None);
    assert_eq!(only, vec!["m.gbl".to_string(), "m/mod.gbl".to_string(), "m/__setup__.gbl".to_string()]);
}

#[test]
fn include_lines_are_recognised() {
    match include_directive("  #include \"runtime/io.h\"") {
        IncludeDirective::Local(p) => assert_eq!(p, "runtime/io.h"),
        _ => panic!("expected a local include"),
    }
    match include_directive("#include\t<stdio.h> // c") {
        IncludeDirective::System(p) => assert_eq!(p, "stdio.h"),
        _ => panic!("expected a system include"),
    }
    assert!(matches!(include_directive("int x;"), IncludeDirective::Plain));
    assert!(matches!(include_directive("#include \"unterminated"), IncludeDirective::Plain));
    assert!(matches!(include_directive("#include <a.h"), IncludeDirective::Plain));
    assert!(matches!(include_directive("#define X 1"), IncludeDirective::Plain));
}

#[test]
fn system_include_root_is_the_first_usr_include() {
    assert_eq!(
        system_include_root("/opt/sdk/usr/include/sys/types.h"),
        Some("/opt/sdk/usr/include/".to_string())
    );
    assert_eq!(system_include_root("/tmp/x.h"), None);
}

#[test]
fn main_file_location_can_be_set() {
    let mut a = SemanticAnalyzer::new();
    a.set_main_file("examples/math.gbl");
    a.set_module_location(None, None);
    assert!(!a.has_errors());
}

fn point_struct() -> StructDefinition {
    StructDefinition {
        name: "Point".to_string(),
        generic_params: vec![],
        fields: vec![StructField { name: "x".to_string(), field_type: Some(Box::new(basic("int"))) }],
        attributes: vec![],
    }
}

fn ident(name: &str) -> Expression {
    Expression::Identifier(name.to_string())
}

fn path(parts: &[&str], member: &str) -> Expression {
    Expression::PathAccess { path: parts.iter().map(|p| p.to_string()).collect(), member: member.to_string() }
}

#[test]
fn undeclared_calls_are_reported() {
    let mut a = SemanticAnalyzer::new();
    a.visit_function_call(Some(&ident("foo")), DataType::Unknown);
    assert_eq!(a.get_current_type(), DataType::Unknown);
    assert_eq!(a.get_errors(), &vec!["Error: Undeclared function: '::foo'".to_string()]);
}

#[test]
fn calls_of_declared_functions_have_their_return_type() {
    let mut a = SemanticAnalyzer::new();
    let program = Program {
        statements: vec![
            Statement::StructDefinition(point_struct()),
            Statement::Function(Box::new(function("origin", Some(basic("Point")), vec![]))),
        ],
    };
    a.declare_program_signatures(&program);
    // a signature is kept under `<module>.<name>`, here `.origin`
    a.visit_function_call(Some(&ident(".origin")), DataType::Unknown);
    assert_eq!(a.get_current_type(), DataType::Struct("Point".to_string()));
    assert!(!a.has_errors());
    // while a call is looked up as `<module>::<name>`, then `<name>`
    a.visit_function_call(Some(&ident("origin")), DataType::Unknown);
    assert_eq!(a.get_current_type(), DataType::Unknown);
    assert_eq!(a.get_errors(), &vec!["Error: Undeclared function: '::origin'".to_string()]);
}

#[test]
fn struct_names_construct_structs() {
    let mut a = SemanticAnalyzer::new();
    a.visit_struct_definition(&point_struct());
    a.visit_function_call(Some(&ident("Point<int>")), DataType::Unknown);
    assert_eq!(a.get_current_type(), DataType::Struct("Point".to_string()));
    a.visit_function_call(Some(&ident("geo::Point")), DataType::Unknown);
    assert_eq!(a.get_current_type(), DataType::Struct("Point".to_string()));
    a.visit_function_call(Some(&path(&["Point"], "new")), DataType::Unknown);
    assert_eq!(a.get_current_type(), DataType::Struct("Point".to_string()));
    assert!(!a.has_errors());
}

#[test]
fn range_new_makes_range_known() {
    let mut a = SemanticAnalyzer::new();
    a.visit_function_call(Some(&path(&["range"], "new")), DataType::Unknown);
    assert_eq!(a.get_current_type(), DataType::Struct("Range".to_string()));
    assert_eq!(a.get_data_type_from_ast(Some(&basic("Range"))), DataType::Struct("Range".to_string()));
    assert!(!a.has_errors());
}

#[test]
fn file_and_line_are_compile_time_calls() {
    let mut a = SemanticAnalyzer::new();
    a.visit_function_call(Some(&ident("file")), DataType::Unknown);
    assert_eq!(a.get_current_type(), DataType::Str);
    a.visit_function_call(Some(&ident("line")), DataType::Unknown);
    assert_eq!(a.get_current_type(), DataType::Int);
    assert!(!a.has_errors());
}

#[test]
fn lambda_called_in_place_has_its_return_type() {
    let mut a = SemanticAnalyzer::new();
    let lambda = Expression::Lambda { params: vec![], body: None };
    a.visit_function_call(Some(&lambda), DataType::Float);
    assert_eq!(a.get_current_type(), DataType::Float);
    assert!(!a.has_errors());
}

#[test]
fn dotted_module_access_is_refused() {
    let mut a = SemanticAnalyzer::new();
    a.visit_struct_definition(&point_struct());
    let call = Expression::MemberAccess { object: Some(Box::new(ident("Point"))), member: "make".to_string() };
    a.visit_function_call(Some(&call), DataType::Unknown);
    assert_eq!(a.get_current_type(), DataType::Unknown);
    assert_eq!(
        a.get_errors(),
        &vec![
            "Error: Use '::' for module access: 'Point::make' instead of 'Point.make'".to_string(),
            "Error: Undeclared function: '::make'".to_string(),
        ]
    );
}

#[test]
fn chained_method_calls_dispatch_on_the_object_type() {
    let mut a = SemanticAnalyzer::new();
    a.visit_struct_definition(&point_struct());
    let inner = Expression::FunctionCall { callee: Some(Box::new(ident("origin"))), arguments: None };
    let call = Expression::MemberAccess { object: Some(Box::new(inner)), member: "show".to_string() };
    a.visit_function_call(Some(&call), DataType::Struct("Point".to_string()));
    assert_eq!(a.get_errors(), &vec!["Error: Undeclared function: 'Point::show'".to_string()]);
}

fn xy_struct() -> StructDefinition {
    StructDefinition {
        name: "Point".to_string(),
        generic_params: vec![],
        fields: vec![
            StructField { name: "x".to_string(), field_type: Some(Box::new(basic("int"))) },
            StructField { name: "y".to_string(), field_type: Some(Box::new(basic("float"))) },
            StructField { name: "_id".to_string(), field_type: Some(Box::new(basic("int"))) },
        ],
        attributes: vec![],
    }
}

fn named(name: &str) -> StructFieldInit {
    StructFieldInit::Named { name: name.to_string(), value: Box::new(Expression::NumberLiteral("1".to_string())) }
}

fn positional() -> StructFieldInit {
    StructFieldInit::Positional(Box::new(Expression::NumberLiteral("1".to_string())))
}

#[test]
fn struct_literals_with_named_fields() {
    let mut a = SemanticAnalyzer::new();
    a.visit_struct_definition(&xy_struct());
    a.visit_struct_literal("Point", &vec![named("y"), named("x")], &vec![DataType::Int, DataType::Int]);
    assert_eq!(a.get_current_type(), DataType::Struct("Point".to_string()));
    assert!(!a.has_errors());
    a.visit_struct_literal("Point", &vec![named("x")], &vec![DataType::Str]);
    assert_eq!(a.get_current_type(), DataType::Struct("Point".to_string()));
    assert_eq!(a.get_errors(), &vec!["Error: Type mismatch in struct literal field 'x': expected int, got str".to_string()]);
}

#[test]
fn struct_literal_errors_end_the_literal() {
    let mut a = SemanticAnalyzer::new();
    a.visit_struct_definition(&xy_struct());
    a.visit_struct_literal("Nope", &vec![], &vec![]);
    assert_eq!(a.get_current_type(), DataType::Unknown);
    a.visit_struct_literal("Point", &vec![named("z")], &vec![DataType::Int]);
    assert_eq!(a.get_current_type(), DataType::Unknown);
    a.visit_struct_literal("Point", &vec![named("x"), named("x")], &vec![DataType::Int, DataType::Int]);
    assert_eq!(a.get_current_type(), DataType::Unknown);
    assert_eq!(
        a.get_errors(),
        &vec![
            "Error: Unknown struct type: 'Nope'".to_string(),
            "Error: Struct 'Point' has no field 'z'".to_string(),
            "Error: Field 'x' assigned multiple times in struct literal".to_string(),
        ]
    );
}

#[test]
fn positional_values_fill_free_fields() {
    let mut a = SemanticAnalyzer::new();
    a.visit_struct_definition(&xy_struct());
    a.visit_struct_literal(
        "Point",
        &vec![positional(), positional(), positional()],
        &vec![DataType::Int, DataType::Int, DataType::Int],
    );
    assert_eq!(a.get_current_type(), DataType::Struct("Point".to_string()));
    assert!(!a.has_errors());
    a.visit_struct_literal(
        "Point",
        &vec![positional(), positional(), positional(), positional()],
        &vec![DataType::Int, DataType::Int, DataType::Int, DataType::Int],
    );
    assert_eq!(a.get_current_type(), DataType::Unknown);
    assert_eq!(a.get_errors(), &vec!["Error: Too many positional fields in struct literal for 'Point'".to_string()]);
}

#[test]
fn member_access_on_struct_values() {
    let mut a = SemanticAnalyzer::new();
    a.visit_struct_definition(&xy_struct());
    let p = ident("p");
    a.visit_member_access(Some(&p), "y", DataType::Struct("Point".to_string()));
    assert_eq!(a.get_current_type(), DataType::Float);
    assert!(!a.has_errors());
    a.visit_member_access(Some(&p), "_id", DataType::Struct("Point".to_string()));
    assert_eq!(a.get_current_type(), DataType::Unknown);
    a.visit_member_access(Some(&p), "w", DataType::Struct("Point".to_string()));
    a.visit_member_access(Some(&p), "w", DataType::Int);
    a.visit_member_access(Some(&ident("self")), "x", DataType::Unknown);
    assert_eq!(
        a.get_errors(),
        &vec![
            "Error: Private field '_id' of struct 'Point' is not accessible here".to_string(),
            "Error: Struct 'Point' has no field 'w'".to_string(),
            "Error: Module 'p' has no member 'w'".to_string(),
            "Error: 'self' used outside of impl block".to_string(),
        ]
    );
}

#[test]
fn member_access_needs_a_name_on_the_left() {
    let mut a = SemanticAnalyzer::new();
    let call = Expression::FunctionCall { callee: Some(Box::new(ident("f"))), arguments: None };
    a.visit_member_access(Some(&call), "x", DataType::Unknown);
    assert_eq!(a.get_current_type(), DataType::Unknown);
    assert_eq!(a.get_errors(), &vec!["Error: Member access left side must be an identifier".to_string()]);
}

#[test]
fn identifiers_resolve_or_are_reported() {
    let mut a = SemanticAnalyzer::new();
    a.visit_struct_definition(&point_struct());
    a.visit_identifier("Point");
    assert!(!a.has_errors());
    a.visit_identifier("nowhere");
    assert_eq!(a.get_current_type(), DataType::Unknown);
    a.visit_identifier("self");
    assert_eq!(
        a.get_errors(),
        &vec!["Error: Undeclared identifier: 'nowhere'".to_string(), "Error: 'self' used outside of impl block".to_string()]
    );
}

#[test]
fn unary_operators_check_their_operand() {
    let mut a = SemanticAnalyzer::new();
    a.visit_try_operator(Some(DataType::Int));
    a.visit_unary_expression("-");
    assert_eq!(a.get_current_type(), DataType::Int);
    a.visit_unary_expression("!");
    assert_eq!(a.get_current_type(), DataType::Bool);
    a.visit_unary_expression("!");
    assert_eq!(a.get_current_type(), DataType::Bool);
    a.visit_unary_expression("&");
    assert_eq!(a.get_current_type(), DataType::Unknown);
    a.visit_unary_expression("~");
    assert_eq!(
        a.get_errors(),
        &vec!["Error: Logical not '!' requires boolean operand".to_string(), "Error: Unknown unary operator: ~".to_string()]
    );
}

#[test]
fn array_indexing_rules() {
    let mut a = SemanticAnalyzer::new();
    let arr = ident("a");
    a.visit_array_index(Some(&arr), DataType::Array(Box::new(DataType::Int)), DataType::Str);
    assert_eq!(a.get_current_type(), DataType::Unknown);
    a.visit_array_index(Some(&arr), DataType::Array(Box::new(DataType::Int)), DataType::Int);
    assert_eq!(a.get_current_type(), DataType::Unknown);
    let call = Expression::FunctionCall { callee: Some(Box::new(ident("f"))), arguments: None };
    a.visit_array_index(Some(&call), DataType::Float, DataType::Int);
    assert_eq!(a.get_current_type(), DataType::Float);
    assert_eq!(
        a.get_errors(),
        &vec!["Error: Array index must be integer".to_string(), "Error: Array variable 'a' not declared".to_string()]
    );
}

#[test]
fn array_literals_take_their_first_element_type() {
    let mut a = SemanticAnalyzer::new();
    a.visit_array_literal(&vec![]);
    assert_eq!(a.get_current_type(), DataType::Array(Box::new(DataType::Unknown)));
    a.visit_array_literal(&vec![DataType::Float, DataType::Int]);
    assert_eq!(a.get_current_type(), DataType::Array(Box::new(DataType::Float)));
    assert!(!a.has_errors());
    a.visit_array_literal(&vec![DataType::Int, DataType::Int, DataType::Str, DataType::Float]);
    assert_eq!(a.get_current_type(), DataType::Array(Box::new(DataType::Int)));
    assert_eq!(
        a.get_errors(),
        &vec![
            "Error: Mixed types in array literal: int and str".to_string(),
            "Error: Mixed types in array literal: int and float".to_string(),
        ]
    );
}

#[test]
fn try_operator_unwraps_results() {
    let mut a = SemanticAnalyzer::new();
    a.visit_try_operator(Some(DataType::Struct("Result".to_string())));
    assert_eq!(a.get_current_type(), DataType::Int);
    a.visit_try_operator(Some(DataType::Struct("Option".to_string())));
    assert_eq!(a.get_current_type(), DataType::Struct("Option".to_string()));
    a.visit_try_operator(None);
    assert_eq!(a.get_current_type(), DataType::Unknown);
}

#[test]
fn ranges_need_numeric_arguments() {
    let mut a = SemanticAnalyzer::new();
    a.visit_range_expression(&vec![DataType::Int, DataType::Str]);
    assert_eq!(a.get_current_type(), DataType::Struct("Range".to_string()));
    assert_eq!(a.get_data_type_from_ast(Some(&basic("Range"))), DataType::Struct("Range".to_string()));
    assert_eq!(a.get_errors(), &vec!["Error: Range arguments must be numeric".to_string()]);
}

#[test]
fn format_strings_are_strings() {
    let mut a = SemanticAnalyzer::new();
    a.visit_format_string(&vec![Some(Box::new(ident("x"))), None]);
    assert_eq!(a.get_current_type(), DataType::Str);
    assert_eq!(a.get_errors(), &vec!["Error: Invalid expression in format string".to_string()]);
}

#[test]
fn jumps_and_returns_need_their_context() {
    let mut a = SemanticAnalyzer::new();
    a.visit_return_statement(false);
    a.visit_break_statement();
    a.visit_continue_statement();
    assert_eq!(
        a.get_errors(),
        &vec![
            "Error: Return statement outside function".to_string(),
            "Error: Break statement outside loop".to_string(),
            "Error: Continue statement outside loop".to_string(),
        ]
    );
}

#[test]
fn conditions_and_loop_depth() {
    let mut a = SemanticAnalyzer::new();
    a.visit_if_statement(Some(DataType::Str));
    a.visit_if_statement(Some(DataType::Int));
    a.visit_if_statement(None);
    a.visit_while_statement(Some(DataType::Bool));
    a.visit_break_statement();
    a.visit_continue_statement();
    a.leave_loop();
    a.visit_while_statement(Some(DataType::Struct("Point".to_string())));
    a.leave_loop();
    a.visit_break_statement();
    assert_eq!(
        a.get_errors(),
        &vec![
            "Error: If condition must be boolean or numeric type".to_string(),
            "Error: While condition must be boolean or numeric type".to_string(),
            "Error: Break statement outside loop".to_string(),
        ]
    );
}

#[test]
fn for_loops_declare_their_variables() {
    let mut a = SemanticAnalyzer::new();
    let vars = vec!["i".to_string(), "c".to_string()];
    a.visit_for_statement(&vars, Some(&ident("text")), Some(DataType::Str));
    a.visit_identifier("c");
    assert_eq!(a.get_current_type(), DataType::Str);
    a.visit_identifier("i");
    assert_eq!(a.get_current_type(), DataType::Int);
    a.visit_break_statement();
    assert!(!a.has_errors());
    a.leave_for_loop();
    a.visit_for_statement(&vars, Some(&ident("xs")), Some(DataType::Array(Box::new(DataType::Float))));
    a.visit_identifier("c");
    assert_eq!(a.get_current_type(), DataType::Float);
    a.leave_for_loop();
    a.visit_for_statement(&vars, Some(&ident("f")), Some(DataType::Float));
    a.leave_for_loop();
    a.visit_identifier("c");
    assert_eq!(
        a.get_errors(),
        &vec![
            "Error: For loop iterable must be range, string, or array".to_string(),
            "Error: Undeclared identifier: 'c'".to_string(),
        ]
    );
}

#[test]
fn casts_push_the_target_type() {
    let mut a = SemanticAnalyzer::new();
    a.visit_cast_expression(&basic("float"));
    assert_eq!(a.get_current_type(), DataType::Float);
    a.visit_cast_expression(&basic("str"));
    assert_eq!(a.get_current_type(), DataType::Str);
    assert!(!a.has_errors());
    a.visit_cast_expression(&basic("Ghost"));
    assert_eq!(a.get_current_type(), DataType::Unknown);
    assert_eq!(a.get_errors(), &vec!["Error: Unknown type: Ghost".to_string()]);
}

#[test]
fn array_sizes_must_be_integers() {
    let mut a = SemanticAnalyzer::new();
    a.visit_array_type(Some(DataType::Int));
    a.visit_array_type(None);
    assert!(!a.has_errors());
    a.visit_array_type(Some(DataType::Float));
    assert_eq!(a.get_errors(), &vec!["Error: Array size must be integer".to_string()]);
}

fn param(name: &str, tp: Option<TypeNode>) -> Parameter {
    Parameter { name: name.to_string(), param_type: tp.map(Box::new) }
}

fn array_of(element: TypeNode, size: Option<Expression>) -> TypeNode {
    TypeNode::Array { element: Box::new(element), size: size.map(Box::new) }
}

fn number(text: &str) -> Expression {
    Expression::NumberLiteral(text.to_string())
}

#[test]
fn parameters_are_declared_in_the_function_scope() {
    let mut a = SemanticAnalyzer::new();
    let mut f = function("sum", Some(basic("int")), vec![]);
    let params = vec![param("n", Some(basic("int"))), param("xs", Some(array_of(basic("float"), None)))];
    f.parameters = Some(params);
    let frame = a.enter_function(&f).expect("entered");
    for p in f.parameters.as_ref().unwrap() {
        a.visit_parameter(p);
    }
    a.visit_identifier("n");
    assert_eq!(a.get_current_type(), DataType::Int);
    // an array parameter is recorded with its element type
    a.visit_identifier("xs");
    assert_eq!(a.get_current_type(), DataType::Float);
    a.visit_identifier("n");
    a.visit_return_statement(true);
    a.leave_function(&f, frame, false);
    assert!(!a.has_errors());
    a.visit_identifier("n");
    assert_eq!(a.get_errors(), &vec!["Error: Undeclared identifier: 'n'".to_string()]);
}

#[test]
fn functions_must_return_their_value() {
    let mut a = SemanticAnalyzer::new();
    let f = function("answer", Some(basic("int")), vec![]);
    let frame = a.enter_function(&f).expect("entered");
    a.leave_function(&f, frame, false);
    let g = function("nothing", None, vec![]);
    let frame = a.enter_function(&g).expect("entered");
    a.leave_function(&g, frame, false);
    let h = function("builtin", Some(basic("str")), vec!["intrinsic"]);
    let frame = a.enter_function(&h).expect("entered");
    a.leave_function(&h, frame, false);
    let mut k = function("tail", Some(basic("int")), vec![]);
    k.body = Some(Block { statements: vec![Statement::Expression(Some(Box::new(number("1"))))] });
    let frame = a.enter_function(&k).expect("entered");
    a.leave_function(&k, frame, true);
    assert_eq!(a.get_errors(), &vec!["Error: Function 'answer' must return a value of type int".to_string()]);
}

#[test]
fn functions_declare_once_per_signature() {
    let mut a = SemanticAnalyzer::new();
    let f = function("f", None, vec![]);
    let frame = a.enter_function(&f).expect("entered");
    a.leave_function(&f, frame, false);
    // declaring the same signature again is accepted
    let frame = a.enter_function(&f).expect("entered again");
    a.leave_function(&f, frame, false);
    assert!(!a.has_errors());
    let g = function("f", Some(basic("int")), vec![]);
    assert!(a.enter_function(&g).is_none());
    assert_eq!(a.get_errors(), &vec!["Error: Failed to declare function '.f'".to_string()]);
}

#[test]
fn release_builds_skip_debug_function_bodies() {
    let mut a = SemanticAnalyzer::new();
    a.set_build_mode(BuildMode::Release);
    let f = function("trace", Some(basic("Missing")), vec!["debug"]);
    assert!(a.enter_function(&f).is_none());
    assert!(!a.has_errors());
}

#[test]
fn self_parameters_set_the_impl_type() {
    let mut a = SemanticAnalyzer::new();
    a.visit_struct_definition(&point_struct());
    let mut f = function("norm", None, vec![]);
    f.parameters = Some(vec![param("self", Some(basic("Point")))]);
    let frame = a.enter_function(&f).expect("entered");
    a.visit_identifier("self");
    assert_eq!(a.get_current_type(), DataType::Struct("Point".to_string()));
    a.visit_identifier("x");
    assert_eq!(a.get_current_type(), DataType::Int);
    a.leave_function(&f, frame, false);
    assert!(!a.has_errors());
}

fn method(name: &str, attributes: Vec<&str>) -> ImplItem {
    ImplItem::Method(function(name, None, attributes))
}

#[test]
fn impl_blocks_check_trait_methods() {
    let mut a = SemanticAnalyzer::new();
    a.visit_struct_definition(&point_struct());
    a.visit_trait_definition(&TraitDefinition {
        name: "Shape".to_string(),
        generic_params: vec![],
        methods: vec![
            TraitMethod { name: "area".to_string(), parameters: vec![], attributes: vec![] },
            TraitMethod { name: "name".to_string(), parameters: vec![], attributes: vec![] },
        ],
        attributes: vec![],
    });
    a.set_build_mode(BuildMode::Release);
    let block = ImplBlock {
        struct_name: "Point".to_string(),
        trait_name: Some("Shape".to_string()),
        generic_params: vec![],
        items: vec![method("area", vec![]), method("name", vec!["debug"])],
    };
    let frame = a.visit_impl_block(&block);
    a.visit_identifier("self");
    assert_eq!(a.get_current_type(), DataType::Struct("Point".to_string()));
    a.leave_impl_block(frame);
    a.visit_identifier("self");
    assert_eq!(
        a.get_errors(),
        &vec![
            "Error: Trait 'Shape' requires method 'name', but it is missing in impl for 'Point'".to_string(),
            "Error: 'self' used outside of impl block".to_string(),
        ]
    );
}

#[test]
fn impl_blocks_of_unknown_traits_wait_for_validation() {
    let mut a = SemanticAnalyzer::new();
    a.visit_struct_definition(&point_struct());
    let block = ImplBlock {
        struct_name: "Point".to_string(),
        trait_name: Some("Later".to_string()),
        generic_params: vec!["T".to_string()],
        items: vec![method("go", vec![])],
    };
    let frame = a.visit_impl_block(&block);
    a.visit_cast_expression(&basic("T"));
    assert_eq!(a.get_current_type(), DataType::Struct("T".to_string()));
    a.leave_impl_block(frame);
    assert!(!a.has_errors());
}

#[test]
fn declarations_take_their_types() {
    let mut a = SemanticAnalyzer::new();
    a.visit_declaration("let", "n", Some(&basic("int")), None, &vec![]);
    a.visit_identifier("n");
    assert_eq!(a.get_current_type(), DataType::Int);
    // no annotation: the initializer's type, visited first
    a.visit_number_literal("2.5");
    a.visit_declaration("var", "r", None, Some(&number("2.5")), &vec![]);
    a.visit_identifier("r");
    assert_eq!(a.get_current_type(), DataType::Float);
    a.visit_declaration("let", "z", None, None, &vec![]);
    a.visit_identifier("z");
    assert_eq!(a.get_current_type(), DataType::None_);
    assert!(!a.has_errors());
    // an int initializer suits a float variable, a str does not suit an int
    a.visit_number_literal("3");
    a.visit_declaration("let", "f", Some(&basic("float")), Some(&number("3")), &vec![]);
    a.visit_format_string(&vec![]);
    a.visit_declaration("let", "m", Some(&basic("int")), Some(&Expression::StringLiteral("s".to_string())), &vec![]);
    a.visit_declaration("let", "q", Some(&basic("Nope")), None, &vec![]);
    assert_eq!(
        a.get_errors(),
        &vec![
            "Error: Type mismatch in variable 'm' initialization: expected int, got str".to_string(),
            "Error: Unknown type: Nope".to_string(),
        ]
    );
}

#[test]
fn array_declarations_check_their_sizes() {
    let mut a = SemanticAnalyzer::new();
    let grid = array_of(array_of(basic("int"), Some(number("3"))), Some(number("4")));
    a.visit_declaration("var", "grid", Some(&grid), None, &vec![DataType::Int, DataType::Int]);
    a.visit_identifier("grid");
    assert_eq!(a.get_current_type(), DataType::Int);
    let sized = array_of(basic("float"), Some(ident("n")));
    a.visit_declaration("let", "buf", Some(&sized), None, &vec![DataType::Int]);
    a.visit_identifier("buf");
    assert_eq!(a.get_current_type(), DataType::Float);
    assert!(!a.has_errors());
    let bad = array_of(basic("int"), Some(number("1.5")));
    a.visit_declaration("let", "bad", Some(&bad), None, &vec![DataType::Float]);
    a.visit_identifier("bad");
    assert_eq!(
        a.get_errors(),
        &vec!["Error: Array size must be integer".to_string(), "Error: Undeclared identifier: 'bad'".to_string()]
    );
}

#[test]
fn number_literals_are_typed_by_their_form() {
    let mut a = SemanticAnalyzer::new();
    a.visit_number_literal("42");
    assert_eq!(a.get_current_type(), DataType::Int);
    a.visit_number_literal("4.0");
    assert_eq!(a.get_current_type(), DataType::Float);
}

fn extern_block(library: Option<&str>, header: Option<&str>, names: &[&str]) -> ExternBlock {
    ExternBlock {
        library: library.map(|l| l.to_string()),
        header: header.map(|h| h.to_string()),
        functions: names.iter().map(|n| function(n, Some(basic("float")), vec![])).collect(),
    }
}

#[test]
fn extern_blocks_need_a_readable_header() {
    let mut a = SemanticAnalyzer::new();
    a.visit_extern_block(&extern_block(Some("m"), None, &["sqrt"]), Ok(String::new()));
    a.visit_extern_block(&extern_block(Some("m"), Some("missing.h"), &["sqrt"]), Err("No such file".to_string()));
    assert!(a.get_extern_libs().is_empty());
    assert_eq!(
        a.get_errors(),
        &vec![
            "Error: extern \"C\" block requires a #[header(\"path/to/header.h\")] attribute specifying the C header that provides these functions".to_string(),
            "Error: Cannot read C header 'missing.h' specified by #[header]: No such file".to_string(),
        ]
    );
}

#[test]
fn extern_functions_are_checked_against_the_header() {
    let mut a = SemanticAnalyzer::new();
    let header = "double sqrt(double);\nint abs (int);\n".to_string();
    a.visit_extern_block(&extern_block(Some("m"), Some("math.h"), &["sqrt", "cosh", "abs"]), Ok(header.clone()));
    a.visit_extern_block(&extern_block(Some("m"), Some("math.h"), &["sqrt"]), Ok(header.clone()));
    a.visit_extern_block(&extern_block(Some("C"), Some("math.h"), &["abs"]), Ok(header));
    assert_eq!(a.get_extern_libs(), &vec!["m".to_string()]);
    assert_eq!(a.get_errors(), &vec!["Error: Function 'cosh' is not declared in header 'math.h'".to_string()]);
}

#[test]
fn match_arms_bind_and_agree() {
    let mut a = SemanticAnalyzer::new();
    let pattern = MatchPattern::Variable("v".to_string());
    a.enter_match_arm(&pattern, &DataType::Int);
    a.visit_identifier("v");
    assert_eq!(a.get_current_type(), DataType::Int);
    a.leave_match_arm(&pattern);
    a.enter_match_arm(&MatchPattern::Wildcard, &DataType::Int);
    a.leave_match_arm(&MatchPattern::Wildcard);
    a.visit_match_expression(&vec![Some(DataType::Int), None, Some(DataType::Float), Some(DataType::Str), Some(DataType::Unknown)]);
    assert_eq!(a.get_current_type(), DataType::Int);
    a.visit_match_expression(&vec![None]);
    assert_eq!(a.get_current_type(), DataType::None_);
    a.visit_identifier("v");
    assert_eq!(
        a.get_errors(),
        &vec!["Error: Match arms have incompatible types".to_string(), "Error: Undeclared identifier: 'v'".to_string()]
    );
}

#[test]
fn lambdas_type_as_their_return_type() {
    let mut a = SemanticAnalyzer::new();
    let generics = vec!["T".to_string()];
    let frame = a.enter_lambda(&generics, Some(&basic("T")));
    a.visit_parameter(&param("x", Some(basic("T"))));
    a.visit_identifier("x");
    assert_eq!(a.get_current_type(), DataType::Struct("T".to_string()));
    a.visit_identifier("x");
    a.visit_return_statement(true);
    a.leave_lambda(frame);
    assert_eq!(a.get_current_type(), DataType::Struct("T".to_string()));
    assert!(!a.has_errors());
    a.visit_cast_expression(&basic("T"));
    a.visit_identifier("x");
    assert_eq!(
        a.get_errors(),
        &vec!["Error: Unknown type: T".to_string(), "Error: Undeclared identifier: 'x'".to_string()]
    );
}

#[test]
fn the_main_file_names_the_module() {
    for (path, module) in [
        ("math.gbl", "math"),
        ("archive.tar.gz", "archive.tar"),
        (".hidden", ".hidden"),
        ("noext", "noext"),
        ("src/lib/math.gbl", "math"),
        ("src/x.gbl", "x"),
        ("/home/u/main.gbl", "main"),
    ] {
        let mut a = SemanticAnalyzer::new();
        a.set_main_file(path);
        let f = function("f", None, vec![]);
        let frame = a.enter_function(&f).expect("entered");
        a.leave_function(&f, frame, false);
        let g = function("f", Some(basic("int")), vec![]);
        assert!(a.enter_function(&g).is_none());
        assert_eq!(a.get_errors(), &vec![format!("Error: Failed to declare function '{}.f'", module)]);
    }
}

fn trait_def(name: &str, attributes: Vec<&str>) -> TraitDefinition {
    TraitDefinition {
        name: name.to_string(),
        generic_params: vec![],
        methods: vec![],
        attributes: attributes.into_iter().map(|a| a.to_string()).collect(),
    }
}

#[test]
fn the_main_file_gives_the_module_directory() {
    for (path, dir) in [("src/x.gbl", "src"), ("a/b/c.gbl", "a/b"), ("main.gbl", ""), ("/home/u/main.gbl", "/home/u"), ("/main.gbl", "/")] {
        let mut a = SemanticAnalyzer::new();
        a.set_main_file(path);
        let frame = a.begin_module("m", "m.gbl", &Program { statements: vec![] }).expect("not loaded yet");
        assert_eq!(frame.prev_dir, Some(dir.to_string()));
    }
}

#[test]
fn loading_a_module_pauses_at_its_imports() {
    let mut a = SemanticAnalyzer::new();
    a.set_main_file("src/main.gbl");
    let geo = Program {
        statements: vec![
            Statement::Function(Box::new(function("sq", Some(basic("int")), vec![]))),
            Statement::Import { module: "util".to_string(), alias: None },
            Statement::Function(Box::new(function("cube", Some(basic("float")), vec![]))),
            Statement::TraitDefinition(trait_def("Show", vec![])),
        ],
    };
    let mut frame = a.begin_module("geo", "lib/geo.gbl", &geo).expect("not loaded yet");
    assert_eq!(frame.prev_module, "main");
    assert_eq!(frame.prev_dir, Some("src".to_string()));
    assert_eq!(frame.next, 0);
    assert!(!frame.explicit_export);
    assert_eq!(a.declare_module_statements(&mut frame, &geo), Some("util".to_string()));
    assert_eq!(frame.next, 1);
    assert!(frame.awaiting);

    let util = Program { statements: vec![Statement::Function(Box::new(function("helper", Some(basic("bool")), vec![])))] };
    let mut inner = a.begin_module("util", "lib/util.gbl", &util).expect("not loaded yet");
    assert_eq!(inner.prev_module, "geo");
    assert_eq!(inner.prev_dir, Some("lib".to_string()));
    assert_eq!(a.declare_module_statements(&mut inner, &util), None);
    assert_eq!(inner.next, 1);

    assert_eq!(a.declare_module_statements(&mut frame, &geo), None);
    assert_eq!(frame.next, 4);
    assert!(!frame.awaiting);
    assert_eq!(frame.imported, vec!["util".to_string()]);
    assert_eq!(frame.traits, vec!["Show".to_string()]);

    for (name, t) in [("geo.sq", DataType::Int), ("geo.cube", DataType::Float), ("util.helper", DataType::Bool)] {
        a.visit_function_call(Some(&ident(name)), DataType::Unknown);
        assert_eq!(a.get_current_type(), t);
    }
    assert!(!a.has_errors());

    // the main module and its directory are back in place
    let next = a.begin_module("other", "x/other.gbl", &Program { statements: vec![] }).expect("not loaded yet");
    assert_eq!(next.prev_module, "main");
    assert_eq!(next.prev_dir, Some("src".to_string()));
}

#[test]
fn a_module_is_loaded_once() {
    let mut a = SemanticAnalyzer::new();
    let p = Program { statements: vec![Statement::Function(Box::new(function("f", Some(basic("int")), vec![])))] };
    let mut frame = a.begin_module("m", "m.gbl", &p).expect("not loaded yet");
    assert_eq!(a.declare_module_statements(&mut frame, &p), None);
    assert!(a.begin_module("m", "m.gbl", &p).is_none());
    assert!(!a.has_errors());
}

#[test]
fn modules_list_their_exports_and_no_export_names() {
    let mut a = SemanticAnalyzer::new();
    let p = Program {
        statements: vec![
            Statement::TraitDefinition(trait_def("Hidden", vec!["no_export"])),
            Statement::Function(Box::new(function("secret", Some(basic("int")), vec!["no_export"]))),
            Statement::Export(vec!["f".to_string()]),
        ],
    };
    let mut frame = a.begin_module("m", "m.gbl", &p).expect("not loaded yet");
    assert!(frame.explicit_export);
    assert_eq!(frame.no_export, vec!["Hidden".to_string(), "secret".to_string()]);
    assert_eq!(a.declare_module_statements(&mut frame, &p), None);
    assert_eq!(frame.traits, vec!["Hidden".to_string()]);
}

#[test]
fn module_structs_become_types() {
    let mut a = SemanticAnalyzer::new();
    let p = Program { statements: vec![Statement::StructDefinition(point_struct())] };
    let mut frame = a.begin_module("geo", "geo.gbl", &p).expect("not loaded yet");
    assert_eq!(a.declare_module_statements(&mut frame, &p), None);
    assert_eq!(a.get_data_type_from_ast(Some(&basic("Point"))), DataType::Struct("Point".to_string()));
    assert!(!a.has_errors());
}

#[test]
fn module_paths_split_on_colons_and_dots() {
    let cases: [(&str, &[&str]); 6] = [
        ("math", &["math"]),
        ("lib.math", &["lib", "math"]),
        ("a::b.c", &["a", "b", "c"]),
        ("::a..b::", &["a", "b"]),
        ("a:b", &["a:b"]),
        (":::x", &[":x"]),
    ];
    for (name, parts) in cases {
        let expected: Vec<String> = parts.iter().map(|p| p.to_string()).collect();
        assert_eq!(module_path_parts(name), expected);
    }
    assert!(module_path_parts("").is_empty());
}

#[test]
fn builtins_are_declared_in_the_current_module() {
    let mut a = SemanticAnalyzer::new();
    a.declare_builtins();
    for (name, t) in [
        (".panic", DataType::None_),
        (".exit", DataType::None_),
        (".gobol_array_elem_addr", DataType::Int),
        (".__new_array", DataType::Unknown),
    ] {
        a.visit_function_call(Some(&ident(name)), DataType::Unknown);
        assert_eq!(a.get_current_type(), t);
    }
    assert!(!a.has_errors());
    assert_eq!(a.get_data_type_from_ast(Some(&basic("Ref"))), DataType::Struct("Ref".to_string()));
    assert!(!a.has_errors());
}

fn candidates(a: LineAction) -> Option<Vec<(Option<String>, String)>> {
    match a {
        LineAction::Keep => None,
        LineAction::Inline(v) => Some(v.into_iter().map(|c| (c.dir, c.name)).collect()),
    }
}

#[test]
fn header_lines_decide_what_is_inlined() {
    assert_eq!(
        candidates(header_line_action("#include \"a.h\"", Some("inc"), None)),
        Some(vec![(Some("inc".to_string()), "a.h".to_string()), (None, "a.h".to_string())])
    );
    assert_eq!(
        candidates(header_line_action("  #include <stdio.h>", None, Some("/usr/include/"))),
        Some(vec![(Some("/usr/include/".to_string()), "stdio.h".to_string())])
    );
    assert_eq!(candidates(header_line_action("#include <stdio.h>", Some("inc"), None)), None);
    assert_eq!(candidates(header_line_action("int abs(int);", Some("inc"), None)), None);
}

#[test]
fn headers_are_inlined_once() {
    let mut v = HeaderVisits::new();
    assert!(v.first_visit("/h/a.h"));
    assert!(v.first_visit("/h/b.h"));
    assert!(!v.first_visit("/h/a.h"));
}

#[test]
fn header_context_gives_directory_and_system_root() {
    assert_eq!(
        header_context("/usr/include/sys/x.h"),
        (Some("/usr/include/sys".to_string()), Some("/usr/include/".to_string()))
    );
    assert_eq!(header_context("inc/m.h"), (Some("inc".to_string()), None));
}
