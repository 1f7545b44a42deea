use gobol::ast::{Block, Expression, MatchArm, MatchPattern, Statement, StructFieldInit};
use gobol::environment::DataType;
use gobol::ir::{
    clone_expr, collect_free_vars_from_block, collect_free_vars_from_expr, collect_free_vars_from_stmt, GobolIR, IRBlock, IRExpr,
    IRFunction, IRParam, IRStmt, LitValue, Monomorphizer,
};
use gobol::table::Table;

fn id(n: &str) -> Expression {
    Expression::Identifier(n.to_string())
}

fn bin(l: Expression, r: Expression) -> Expression {
    Expression::Binary { op: "+".to_string(), left: Some(Box::new(l)), right: Some(Box::new(r)) }
}

fn strings(v: &[&str]) -> Vec<String> {
    v.iter().map(|s| s.to_string()).collect()
}

fn generic_fn(name: &str, body: Vec<IRStmt>) -> IRFunction {
    IRFunction {
        name: name.to_string(),
        generic_params: strings(&["T"]),
        params: vec![IRParam { name: "x".to_string(), ty: DataType::Struct("T".to_string()) }],
        return_type: DataType::Nullable(Box::new(DataType::Struct("T".to_string()))),
        body: Some(IRBlock { statements: body }),
        is_main: false,
        is_method: false,
        struct_name: None,
        attributes: vec![],
        is_variadic: false,
    }
}

fn plain_fn(name: &str) -> IRFunction {
    IRFunction {
        name: name.to_string(),
        generic_params: vec![],
        params: vec![],
        return_type: DataType::Int,
        body: None,
        is_main: true,
        is_method: false,
        struct_name: None,
        attributes: vec![],
        is_variadic: false,
    }
}

#[test]
fn substitution_replaces_parameters() {
    let m = Monomorphizer::new();
    let mut map: Table<DataType> = Table::new();
    map.insert("T".to_string(), DataType::Float);
    let t = DataType::Array(Box::new(DataType::Nullable(Box::new(DataType::Struct("T".to_string())))));
    assert_eq!(
        m.substitute_type(&t, &map),
        DataType::Array(Box::new(DataType::Nullable(Box::new(DataType::Float))))
    );
    assert_eq!(m.substitute_type(&DataType::Struct("U".to_string()), &map), DataType::Struct("U".to_string()));
    let empty: Table<DataType> = Table::new();
    assert_eq!(m.substitute_type(&t, &empty), t);
}

#[test]
fn generic_functions_get_default_instances() {
    let ir = GobolIR {
        functions: vec![
            generic_fn("id", vec![IRStmt::Declaration { name: "y".to_string(), ty: DataType::Struct("T".to_string()), init: None }]),
            plain_fn("main"),
        ],
        structs: vec![],
        impls: vec![],
        main_function: Some("main".to_string()),
    };
    let mut m = Monomorphizer::new();
    let out = m.monomorphize(&ir);
    let names: Vec<&str> = out.functions.iter().map(|f| f.name.as_str()).collect();
    assert_eq!(names, vec!["main", "id_int", "id_float", "id_str"]);
    let f = &out.functions[2];
    assert!(f.generic_params.is_empty());
    assert_eq!(f.params[0].ty, DataType::Float);
    assert_eq!(f.return_type, DataType::Nullable(Box::new(DataType::Float)));
    match &f.body.as_ref().unwrap().statements[0] {
        IRStmt::Declaration { ty, .. } => assert_eq!(*ty, DataType::Float),
        _ => panic!("expected a declaration"),
    }
    assert_eq!(out.main_function, Some("main".to_string()));
}

#[test]
fn generic_calls_choose_the_instances() {
    let body = vec![
        IRStmt::Call { func: "wrap".to_string(), args: vec![], generic_args: vec![DataType::Bool] },
        IRStmt::Call { func: "other".to_string(), args: vec![], generic_args: vec![DataType::Int] },
        IRStmt::MethodCall {
            object: Box::new(IRExpr::Variable("v".to_string())),
            method: "push".to_string(),
            args: vec![],
            generic_args: vec![DataType::Struct("Point".to_string())],
        },
    ];
    let ir = GobolIR { functions: vec![generic_fn("wrap", body)], structs: vec![], impls: vec![], main_function: None };
    let out = Monomorphizer::new().monomorphize(&ir);
    let names: Vec<&str> = out.functions.iter().map(|f| f.name.as_str()).collect();
    assert_eq!(names, vec!["wrap_bool", "wrap_Point"]);
    assert_eq!(out.functions[1].params[0].ty, DataType::Struct("Point".to_string()));
}

#[test]
fn expressions_copy_exactly() {
    let e = IRExpr::Binary {
        op: "+".to_string(),
        left: Box::new(IRExpr::Literal(LitValue::Int(1))),
        right: Box::new(IRExpr::Call { func: "f".to_string(), args: vec![IRExpr::Empty], generic_args: vec![] }),
    };
    let c = clone_expr(&e);
    match c {
        IRExpr::Binary { op, left, right } => {
            assert_eq!(op, "+");
            assert!(matches!(*left, IRExpr::Literal(LitValue::Int(1))));
            assert!(matches!(*right, IRExpr::Call { ref func, ref args, .. } if func == "f" && args.len() == 1));
        },
        _ => panic!("expected a binary expression"),
    }
}

#[test]
fn free_names_in_first_use_order() {
    let e = bin(bin(id("b"), id("a")), bin(id("b"), id("c")));
    let bound = strings(&["c"]);
    let mut free = vec![];
    collect_free_vars_from_expr(&e, &bound, &mut free);
    assert_eq!(free, strings(&["b", "a"]));
}

#[test]
fn called_names_are_not_captured() {
    let call = Expression::FunctionCall { callee: Some(Box::new(id("f"))), arguments: Some(vec![id("x"), id("f")]) };
    let mut free = vec![];
    collect_free_vars_from_expr(&call, &vec![], &mut free);
    assert_eq!(free, strings(&["x", "f"]));
}

#[test]
fn declarations_bind_after_their_initialiser() {
    let stmts = vec![
        Statement::Declaration {
            keyword: "let".to_string(),
            name: "x".to_string(),
            var_type: None,
            initializer: Some(Box::new(id("x"))),
        },
        Statement::Expression(Some(Box::new(bin(id("x"), id("y"))))),
    ];
    let block = Block { statements: stmts };
    let mut bound = strings(&[]);
    let mut free = vec![];
    collect_free_vars_from_block(&block, &mut bound, &mut free);
    assert_eq!(free, strings(&["x", "y"]));
    assert!(bound.is_empty());
}

#[test]
fn loops_and_matches_bind_their_names() {
    let for_loop = Statement::For {
        variables: strings(&["i"]),
        iterable: Some(Box::new(id("items"))),
        body: Some(Block { statements: vec![Statement::Expression(Some(Box::new(bin(id("i"), id("acc")))))] }),
    };
    let mut bound = vec![];
    let mut free = vec![];
    collect_free_vars_from_stmt(&for_loop, &mut bound, &mut free);
    assert_eq!(free, strings(&["items", "acc"]));
    assert_eq!(bound, strings(&["i"]));

    let m = Expression::Match {
        scrutinee: Some(Box::new(id("v"))),
        arms: vec![
            MatchArm {
                pattern: MatchPattern::Variable("n".to_string()),
                body: Some(Box::new(Statement::Expression(Some(Box::new(bin(id("n"), id("k"))))))),
            },
            MatchArm { pattern: MatchPattern::Wildcard, body: Some(Box::new(Statement::Return(Some(Box::new(id("n")))))) },
        ],
    };
    let mut free2 = vec![];
    collect_free_vars_from_expr(&m, &vec![], &mut free2);
    assert_eq!(free2, strings(&["v", "k", "n"]));
}

#[test]
fn nested_lambdas_and_literals_capture_nothing() {
    let lambda = Expression::Lambda { params: strings(&["z"]), body: Some(Box::new(Statement::Expression(Some(Box::new(id("q")))))) };
    let lit = Expression::StructLiteral {
        name: "P".to_string(),
        fields: vec![StructFieldInit::Named { name: "x".to_string(), value: Box::new(id("px")) }],
    };
    let mut free = vec![];
    collect_free_vars_from_expr(&lambda, &vec![], &mut free);
    collect_free_vars_from_expr(&Expression::NumberLiteral("1".to_string()), &vec![], &mut free);
    collect_free_vars_from_expr(&lit, &vec![], &mut free);
    assert_eq!(free, strings(&["px"]));
}
