//! The intermediate representation: functions, structs and impls lowered from
//! the syntax tree, with statements and expressions over typed values.
use vstd::prelude::*;
use crate::environment::{DataType, TypeView, type_text, append_type_name};
use crate::table::Table;
use crate::ast::{Block, Expression, MatchArm, MatchPattern, Statement, StructFieldInit};
use crate::text::str_eq;

verus! {

/// A whole program in intermediate form.
pub struct GobolIR {
    pub functions: Vec<IRFunction>,
    pub structs: Vec<IRStruct>,
    pub impls: Vec<IRImpl>,
    pub main_function: Option<String>,
}

/// A function or method.
pub struct IRFunction {
    pub name: String,
    pub generic_params: Vec<String>,
    pub params: Vec<IRParam>,
    pub return_type: DataType,
    pub body: Option<IRBlock>,
    pub is_main: bool,
    pub is_method: bool,
    pub struct_name: Option<String>,
    pub attributes: Vec<String>,
    /// An `extern "C"` function declared with `...`.
    pub is_variadic: bool,
}

/// A parameter of a function.
pub struct IRParam {
    pub name: String,
    pub ty: DataType,
}

/// A struct definition.
pub struct IRStruct {
    pub name: String,
    pub generic_params: Vec<String>,
    pub fields: Vec<IRField>,
    /// Simple attributes such as `no_gc` or `internal`.
    pub attributes: Vec<String>,
}

/// A field of a struct.
pub struct IRField {
    pub name: String,
    pub ty: DataType,
}

/// An `impl` block.
pub struct IRImpl {
    pub struct_name: String,
    pub generic_params: Vec<String>,
    pub methods: Vec<IRFunction>,
    pub attributes: Vec<String>,
}

/// A sequence of statements.
pub struct IRBlock {
    pub statements: Vec<IRStmt>,
}

/// A statement.
pub enum IRStmt {
    Declaration { name: String, ty: DataType, init: Option<IRExpr> },
    Expression(IRExpr),
    Return(Option<IRExpr>),
    If { cond: IRExpr, then_block: IRBlock, else_block: Option<IRBlock> },
    While { cond: IRExpr, body: IRBlock },
    Break,
    Continue,
    Assignment { target: IRExpr, value: IRExpr },
    Call { func: String, args: Vec<IRExpr>, generic_args: Vec<DataType> },
    MethodCall { object: Box<IRExpr>, method: String, args: Vec<IRExpr>, generic_args: Vec<DataType> },
    For { vars: Vec<String>, iterable: IRExpr, body: IRBlock },
}

/// An expression.
pub enum IRExpr {
    Literal(LitValue),
    Variable(String),
    Binary { op: String, left: Box<IRExpr>, right: Box<IRExpr> },
    Unary { op: String, operand: Box<IRExpr> },
    Call { func: String, args: Vec<IRExpr>, generic_args: Vec<DataType> },
    MethodCall { object: Box<IRExpr>, method: String, args: Vec<IRExpr>, generic_args: Vec<DataType> },
    MemberAccess { object: Box<IRExpr>, member: String },
    ArrayIndex { array: Box<IRExpr>, index: Box<IRExpr> },
    ArrayLiteral(Vec<IRExpr>),
    StructLiteral { name: String, fields: Vec<(String, IRExpr)> },
    Cast { expr: Box<IRExpr>, target: DataType },
    Assignment { target: Box<IRExpr>, value: Box<IRExpr> },
    /// The address of a named function.
    FuncRef(String),
    /// A call through a function value.
    IndirectCall { callee: Box<IRExpr>, args: Vec<IRExpr> },
    Empty,
}

/// A literal value. A float literal is held by its IEEE-754 bit pattern.
pub enum LitValue {
    Int(i64),
    Float(u64),
    Bool(bool),
    Str(String),
    Null,
}

// ==================== mathematical views ====================

/// A literal as a mathematical value.
pub enum LitV {
    Int(i64),
    Float(u64),
    Bool(bool),
    Str(Seq<char>),
    Null,
}

/// An expression as a mathematical value.
pub enum ExprV {
    Literal(LitV),
    Variable(Seq<char>),
    Binary { op: Seq<char>, left: Box<ExprV>, right: Box<ExprV> },
    Unary { op: Seq<char>, operand: Box<ExprV> },
    Call { func: Seq<char>, args: Seq<ExprV>, generic_args: Seq<TypeView> },
    MethodCall { object: Box<ExprV>, method: Seq<char>, args: Seq<ExprV>, generic_args: Seq<TypeView> },
    MemberAccess { object: Box<ExprV>, member: Seq<char> },
    ArrayIndex { array: Box<ExprV>, index: Box<ExprV> },
    ArrayLiteral(Seq<ExprV>),
    StructLiteral { name: Seq<char>, fields: Seq<(Seq<char>, ExprV)> },
    Cast { expr: Box<ExprV>, target: TypeView },
    Assignment { target: Box<ExprV>, value: Box<ExprV> },
    FuncRef(Seq<char>),
    IndirectCall { callee: Box<ExprV>, args: Seq<ExprV> },
    Empty,
}

/// A statement as a mathematical value.
pub enum StmtV {
    Declaration { name: Seq<char>, ty: TypeView, init: Option<ExprV> },
    Expression(ExprV),
    Return(Option<ExprV>),
    If { cond: ExprV, then_block: Seq<StmtV>, else_block: Option<Seq<StmtV>> },
    While { cond: ExprV, body: Seq<StmtV> },
    Break,
    Continue,
    Assignment { target: ExprV, value: ExprV },
    Call { func: Seq<char>, args: Seq<ExprV>, generic_args: Seq<TypeView> },
    MethodCall { object: ExprV, method: Seq<char>, args: Seq<ExprV>, generic_args: Seq<TypeView> },
    For { vars: Seq<Seq<char>>, iterable: ExprV, body: Seq<StmtV> },
}

/// A function as a mathematical value.
pub struct FunctionV {
    pub name: Seq<char>,
    pub generic_params: Seq<Seq<char>>,
    pub params: Seq<(Seq<char>, TypeView)>,
    pub return_type: TypeView,
    pub body: Option<Seq<StmtV>>,
    pub is_main: bool,
    pub is_method: bool,
    pub struct_name: Option<Seq<char>>,
    pub attributes: Seq<Seq<char>>,
    pub is_variadic: bool,
}

/// The types of a sequence of types.
pub open spec fn types_view(s: Seq<DataType>) -> Seq<TypeView> {
    s.map_values(|t: DataType| t@)
}

/// The texts of a sequence of strings.
pub open spec fn strings_view(s: Seq<String>) -> Seq<Seq<char>> {
    s.map_values(|t: String| t@)
}

/// A literal's view.
pub open spec fn lit_view(l: LitValue) -> LitV {
    match l {
        LitValue::Int(n) => LitV::Int(n),
        LitValue::Float(b) => LitV::Float(b),
        LitValue::Bool(b) => LitV::Bool(b),
        LitValue::Str(s) => LitV::Str(s@),
        LitValue::Null => LitV::Null,
    }
}

/// An expression's view.
pub open spec fn expr_view(e: IRExpr) -> ExprV
    decreases e, 0nat,
{
    match e {
        IRExpr::Literal(l) => ExprV::Literal(lit_view(l)),
        IRExpr::Variable(n) => ExprV::Variable(n@),
        IRExpr::Binary { op, left, right } => ExprV::Binary {
            op: op@,
            left: Box::new(expr_view(*left)),
            right: Box::new(expr_view(*right)),
        },
        IRExpr::Unary { op, operand } => ExprV::Unary { op: op@, operand: Box::new(expr_view(*operand)) },
        IRExpr::Call { func, args, generic_args } => ExprV::Call {
            func: func@,
            args: exprs_view(args@),
            generic_args: types_view(generic_args@),
        },
        IRExpr::MethodCall { object, method, args, generic_args } => ExprV::MethodCall {
            object: Box::new(expr_view(*object)),
            method: method@,
            args: exprs_view(args@),
            generic_args: types_view(generic_args@),
        },
        IRExpr::MemberAccess { object, member } => ExprV::MemberAccess {
            object: Box::new(expr_view(*object)),
            member: member@,
        },
        IRExpr::ArrayIndex { array, index } => ExprV::ArrayIndex {
            array: Box::new(expr_view(*array)),
            index: Box::new(expr_view(*index)),
        },
        IRExpr::ArrayLiteral(items) => ExprV::ArrayLiteral(exprs_view(items@)),
        IRExpr::StructLiteral { name, fields } => ExprV::StructLiteral { name: name@, fields: inits_view(fields@) },
        IRExpr::Cast { expr, target } => ExprV::Cast { expr: Box::new(expr_view(*expr)), target: target@ },
        IRExpr::Assignment { target, value } => ExprV::Assignment {
            target: Box::new(expr_view(*target)),
            value: Box::new(expr_view(*value)),
        },
        IRExpr::FuncRef(n) => ExprV::FuncRef(n@),
        IRExpr::IndirectCall { callee, args } => ExprV::IndirectCall {
            callee: Box::new(expr_view(*callee)),
            args: exprs_view(args@),
        },
        IRExpr::Empty => ExprV::Empty,
    }
}

/// The views of a sequence of expressions.
pub open spec fn exprs_view(s: Seq<IRExpr>) -> Seq<ExprV>
    decreases s, 1nat,
{
    if s.len() == 0 {
        Seq::empty()
    } else {
        exprs_view(s.drop_last()).push(expr_view(s.last()))
    }
}

/// The views of a struct literal's field initialisers.
pub open spec fn inits_view(s: Seq<(String, IRExpr)>) -> Seq<(Seq<char>, ExprV)>
    decreases s, 1nat,
{
    if s.len() == 0 {
        Seq::empty()
    } else {
        inits_view(s.drop_last()).push((s.last().0@, expr_view(s.last().1)))
    }
}

/// A statement's view.
pub open spec fn stmt_view(st: IRStmt) -> StmtV
    decreases st, 0nat,
{
    match st {
        IRStmt::Declaration { name, ty, init } => StmtV::Declaration {
            name: name@,
            ty: ty@,
            init: match init {
                Some(e) => Some(expr_view(e)),
                None => None,
            },
        },
        IRStmt::Expression(e) => StmtV::Expression(expr_view(e)),
        IRStmt::Return(e) => StmtV::Return(
            match e {
                Some(x) => Some(expr_view(x)),
                None => None,
            },
        ),
        IRStmt::If { cond, then_block, else_block } => StmtV::If {
            cond: expr_view(cond),
            then_block: stmts_view(then_block.statements@),
            else_block: match else_block {
                Some(b) => Some(stmts_view(b.statements@)),
                None => None,
            },
        },
        IRStmt::While { cond, body } => StmtV::While { cond: expr_view(cond), body: stmts_view(body.statements@) },
        IRStmt::Break => StmtV::Break,
        IRStmt::Continue => StmtV::Continue,
        IRStmt::Assignment { target, value } => StmtV::Assignment { target: expr_view(target), value: expr_view(value) },
        IRStmt::Call { func, args, generic_args } => StmtV::Call {
            func: func@,
            args: exprs_view(args@),
            generic_args: types_view(generic_args@),
        },
        IRStmt::MethodCall { object, method, args, generic_args } => StmtV::MethodCall {
            object: expr_view(*object),
            method: method@,
            args: exprs_view(args@),
            generic_args: types_view(generic_args@),
        },
        IRStmt::For { vars, iterable, body } => StmtV::For {
            vars: strings_view(vars@),
            iterable: expr_view(iterable),
            body: stmts_view(body.statements@),
        },
    }
}

/// The views of a sequence of statements.
pub open spec fn stmts_view(s: Seq<IRStmt>) -> Seq<StmtV>
    decreases s, 1nat,
{
    if s.len() == 0 {
        Seq::empty()
    } else {
        stmts_view(s.drop_last()).push(stmt_view(s.last()))
    }
}

/// A function's view.
pub open spec fn function_view(f: IRFunction) -> FunctionV {
    FunctionV {
        name: f.name@,
        generic_params: strings_view(f.generic_params@),
        params: f.params@.map_values(|p: IRParam| (p.name@, p.ty@)),
        return_type: f.return_type@,
        body: match f.body {
            Some(b) => Some(stmts_view(b.statements@)),
            None => None,
        },
        is_main: f.is_main,
        is_method: f.is_method,
        struct_name: match f.struct_name {
            Some(n) => Some(n@),
            None => None,
        },
        attributes: strings_view(f.attributes@),
        is_variadic: f.is_variadic,
    }
}

/// The views of a sequence of functions.
pub open spec fn functions_view(s: Seq<IRFunction>) -> Seq<FunctionV> {
    s.map_values(|f: IRFunction| function_view(f))
}

// ==================== copies ====================

pub fn clone_strings(v: &Vec<String>) -> (r: Vec<String>)
    ensures
        r@ == v@,
{
    let mut r: Vec<String> = Vec::new();
    let mut i: usize = 0;
    while i < v.len()
        invariant
            i <= v@.len(),
            r@ == v@.subrange(0, i as int),
        decreases v@.len() - i,
    {
        r.push(v[i].clone());
        i = i + 1;
        assert(r@ =~= v@.subrange(0, i as int));
    }
    assert(r@ =~= v@);
    r
}

/// Copies of a sequence of types.
pub fn clone_types(v: &Vec<DataType>) -> (r: Vec<DataType>)
    ensures
        r@ == v@,
{
    let mut r: Vec<DataType> = Vec::new();
    let mut i: usize = 0;
    while i < v.len()
        invariant
            i <= v@.len(),
            r@ == v@.subrange(0, i as int),
        decreases v@.len() - i,
    {
        r.push(v[i].clone());
        i = i + 1;
        assert(r@ =~= v@.subrange(0, i as int));
    }
    assert(r@ =~= v@);
    r
}

fn clone_lit(l: &LitValue) -> (r: LitValue)
    ensures
        r == *l,
{
    match l {
        LitValue::Int(n) => LitValue::Int(*n),
        LitValue::Float(bits) => LitValue::Float(*bits),
        LitValue::Bool(b) => LitValue::Bool(*b),
        LitValue::Str(s) => LitValue::Str(s.clone()),
        LitValue::Null => LitValue::Null,
    }
}

impl Clone for IRField {
    fn clone(&self) -> (r: Self)
        ensures
            r == *self,
    {
        IRField { name: self.name.clone(), ty: self.ty.clone() }
    }
}

impl Clone for IRParam {
    fn clone(&self) -> (r: Self)
        ensures
            r == *self,
    {
        IRParam { name: self.name.clone(), ty: self.ty.clone() }
    }
}

fn clone_fields(v: &Vec<IRField>) -> (r: Vec<IRField>)
    ensures
        r@ == v@,
{
    let mut r: Vec<IRField> = Vec::new();
    let mut i: usize = 0;
    while i < v.len()
        invariant
            i <= v@.len(),
            r@ == v@.subrange(0, i as int),
        decreases v@.len() - i,
    {
        r.push(v[i].clone());
        i = i + 1;
        assert(r@ =~= v@.subrange(0, i as int));
    }
    assert(r@ =~= v@);
    r
}

/// Two struct definitions with the same name, generic parameters, fields
/// and attributes.
pub open spec fn same_struct(a: IRStruct, b: IRStruct) -> bool {
    &&& a.name == b.name
    &&& a.generic_params@ == b.generic_params@
    &&& a.fields@ == b.fields@
    &&& a.attributes@ == b.attributes@
}

impl Clone for IRStruct {
    /// A copy of the struct definition: the same name, and the same generic
    /// parameters, fields and attributes in the same order.
    fn clone(&self) -> (r: Self)
        ensures
            r.name == self.name,
            r.generic_params@ == self.generic_params@,
            r.fields@ == self.fields@,
            r.attributes@ == self.attributes@,
    {
        IRStruct {
            name: self.name.clone(),
            generic_params: clone_strings(&self.generic_params),
            fields: clone_fields(&self.fields),
            attributes: clone_strings(&self.attributes),
        }
    }
}

// ==================== deep copies ====================

proof fn lemma_exprs_view_push(s: Seq<IRExpr>, e: IRExpr)
    ensures
        exprs_view(s.push(e)) == exprs_view(s).push(expr_view(e)),
{
    assert(s.push(e).drop_last() =~= s);
}

pub proof fn lemma_stmts_view_push(s: Seq<IRStmt>, e: IRStmt)
    ensures
        stmts_view(s.push(e)) == stmts_view(s).push(stmt_view(e)),
{
    assert(s.push(e).drop_last() =~= s);
}

/// A copy of an expression.
pub fn clone_expr(e: &IRExpr) -> (r: IRExpr)
    ensures
        expr_view(r) == expr_view(*e),
    decreases e, 0nat,
{
    match e {
        IRExpr::Literal(l) => IRExpr::Literal(clone_lit(l)),
        IRExpr::Variable(n) => IRExpr::Variable(n.clone()),
        IRExpr::Binary { op, left, right } => IRExpr::Binary {
            op: op.clone(),
            left: Box::new(clone_expr(&**left)),
            right: Box::new(clone_expr(&**right)),
        },
        IRExpr::Unary { op, operand } => IRExpr::Unary { op: op.clone(), operand: Box::new(clone_expr(&**operand)) },
        IRExpr::Call { func, args, generic_args } => IRExpr::Call {
            func: func.clone(),
            args: clone_exprs(args),
            generic_args: clone_types(generic_args),
        },
        IRExpr::MethodCall { object, method, args, generic_args } => IRExpr::MethodCall {
            object: Box::new(clone_expr(&**object)),
            method: method.clone(),
            args: clone_exprs(args),
            generic_args: clone_types(generic_args),
        },
        IRExpr::MemberAccess { object, member } => IRExpr::MemberAccess {
            object: Box::new(clone_expr(&**object)),
            member: member.clone(),
        },
        IRExpr::ArrayIndex { array, index } => IRExpr::ArrayIndex {
            array: Box::new(clone_expr(&**array)),
            index: Box::new(clone_expr(&**index)),
        },
        IRExpr::ArrayLiteral(items) => IRExpr::ArrayLiteral(clone_exprs(items)),
        IRExpr::StructLiteral { name, fields } => IRExpr::StructLiteral { name: name.clone(), fields: clone_inits(fields) },
        IRExpr::Cast { expr, target } => IRExpr::Cast { expr: Box::new(clone_expr(&**expr)), target: target.clone() },
        IRExpr::Assignment { target, value } => IRExpr::Assignment {
            target: Box::new(clone_expr(&**target)),
            value: Box::new(clone_expr(&**value)),
        },
        IRExpr::FuncRef(n) => IRExpr::FuncRef(n.clone()),
        IRExpr::IndirectCall { callee, args } => IRExpr::IndirectCall {
            callee: Box::new(clone_expr(&**callee)),
            args: clone_exprs(args),
        },
        IRExpr::Empty => IRExpr::Empty,
    }
}

/// Copies of a sequence of expressions.
pub fn clone_exprs(v: &Vec<IRExpr>) -> (r: Vec<IRExpr>)
    ensures
        exprs_view(r@) == exprs_view(v@),
    decreases v, 1nat,
{
    let mut r: Vec<IRExpr> = Vec::new();
    let mut i: usize = 0;
    assert(v@.take(0) =~= Seq::<IRExpr>::empty());
    while i < v.len()
        invariant
            i <= v@.len(),
            exprs_view(r@) == exprs_view(v@.take(i as int)),
        decreases v@.len() - i,
    {
        proof {
            assert(decreases_to!(v => v@[i as int]));
        }
        let e = clone_expr(&v[i]);
        proof {
            lemma_exprs_view_push(r@, e);
            assert(v@.take(i + 1).drop_last() =~= v@.take(i as int));
        }
        r.push(e);
        i = i + 1;
    }
    assert(v@.take(i as int) =~= v@);
    r
}

/// Copies of a struct literal's field initialisers.
pub fn clone_inits(v: &Vec<(String, IRExpr)>) -> (r: Vec<(String, IRExpr)>)
    ensures
        inits_view(r@) == inits_view(v@),
    decreases v, 1nat,
{
    let mut r: Vec<(String, IRExpr)> = Vec::new();
    let mut i: usize = 0;
    assert(v@.take(0) =~= Seq::<(String, IRExpr)>::empty());
    while i < v.len()
        invariant
            i <= v@.len(),
            inits_view(r@) == inits_view(v@.take(i as int)),
        decreases v@.len() - i,
    {
        proof {
            assert(decreases_to!(v => v@[i as int].1));
        }
        let e = clone_expr(&v[i].1);
        let n = v[i].0.clone();
        proof {
            assert(r@.push((n, e)).drop_last() =~= r@);
            assert(v@.take(i + 1).drop_last() =~= v@.take(i as int));
        }
        r.push((n, e));
        i = i + 1;
    }
    assert(v@.take(i as int) =~= v@);
    r
}

fn clone_opt_expr(e: &Option<IRExpr>) -> (r: Option<IRExpr>)
    ensures
        match (r, *e) {
            (Some(a), Some(b)) => expr_view(a) == expr_view(b),
            (None, None) => true,
            _ => false,
        },
{
    match e {
        Some(x) => Some(clone_expr(x)),
        None => None,
    }
}

/// A copy of a statement.
pub fn clone_stmt(st: &IRStmt) -> (r: IRStmt)
    ensures
        stmt_view(r) == stmt_view(*st),
    decreases st, 0nat,
{
    match st {
        IRStmt::Declaration { name, ty, init } => IRStmt::Declaration {
            name: name.clone(),
            ty: ty.clone(),
            init: clone_opt_expr(init),
        },
        IRStmt::Expression(e) => IRStmt::Expression(clone_expr(e)),
        IRStmt::Return(e) => IRStmt::Return(clone_opt_expr(e)),
        IRStmt::If { cond, then_block, else_block } => IRStmt::If {
            cond: clone_expr(cond),
            then_block: IRBlock { statements: clone_stmts(&then_block.statements) },
            else_block: match else_block {
                Some(b) => Some(IRBlock { statements: clone_stmts(&b.statements) }),
                None => None,
            },
        },
        IRStmt::While { cond, body } => IRStmt::While {
            cond: clone_expr(cond),
            body: IRBlock { statements: clone_stmts(&body.statements) },
        },
        IRStmt::Break => IRStmt::Break,
        IRStmt::Continue => IRStmt::Continue,
        IRStmt::Assignment { target, value } => IRStmt::Assignment { target: clone_expr(target), value: clone_expr(value) },
        IRStmt::Call { func, args, generic_args } => IRStmt::Call {
            func: func.clone(),
            args: clone_exprs(args),
            generic_args: clone_types(generic_args),
        },
        IRStmt::MethodCall { object, method, args, generic_args } => IRStmt::MethodCall {
            object: Box::new(clone_expr(&**object)),
            method: method.clone(),
            args: clone_exprs(args),
            generic_args: clone_types(generic_args),
        },
        IRStmt::For { vars, iterable, body } => IRStmt::For {
            vars: clone_strings(vars),
            iterable: clone_expr(iterable),
            body: IRBlock { statements: clone_stmts(&body.statements) },
        },
    }
}

/// Copies of a sequence of statements.
pub fn clone_stmts(v: &Vec<IRStmt>) -> (r: Vec<IRStmt>)
    ensures
        stmts_view(r@) == stmts_view(v@),
    decreases v, 1nat,
{
    let mut r: Vec<IRStmt> = Vec::new();
    let mut i: usize = 0;
    assert(v@.take(0) =~= Seq::<IRStmt>::empty());
    while i < v.len()
        invariant
            i <= v@.len(),
            stmts_view(r@) == stmts_view(v@.take(i as int)),
        decreases v@.len() - i,
    {
        proof {
            assert(decreases_to!(v => v@[i as int]));
        }
        let e = clone_stmt(&v[i]);
        proof {
            lemma_stmts_view_push(r@, e);
            assert(v@.take(i + 1).drop_last() =~= v@.take(i as int));
        }
        r.push(e);
        i = i + 1;
    }
    assert(v@.take(i as int) =~= v@);
    r
}

fn clone_params(v: &Vec<IRParam>) -> (r: Vec<IRParam>)
    ensures
        r@ == v@,
{
    let mut r: Vec<IRParam> = Vec::new();
    let mut i: usize = 0;
    while i < v.len()
        invariant
            i <= v@.len(),
            r@ == v@.subrange(0, i as int),
        decreases v@.len() - i,
    {
        r.push(v[i].clone());
        i = i + 1;
        assert(r@ =~= v@.subrange(0, i as int));
    }
    assert(r@ =~= v@);
    r
}

/// A copy of a function.
pub fn clone_function(f: &IRFunction) -> (r: IRFunction)
    ensures
        function_view(r) == function_view(*f),
{
    let r = IRFunction {
        name: f.name.clone(),
        generic_params: clone_strings(&f.generic_params),
        params: clone_params(&f.params),
        return_type: f.return_type.clone(),
        body: match &f.body {
            Some(b) => Some(IRBlock { statements: clone_stmts(&b.statements) }),
            None => None,
        },
        is_main: f.is_main,
        is_method: f.is_method,
        struct_name: match &f.struct_name {
            Some(n) => Some(n.clone()),
            None => None,
        },
        attributes: clone_strings(&f.attributes),
        is_variadic: f.is_variadic,
    };
    r
}

// ==================== monomorphization ====================

/// A type with generic parameters replaced by the types `m` maps them to
/// (a struct type named like a parameter is that parameter).
pub open spec fn subst_type(t: TypeView, m: Map<Seq<char>, TypeView>) -> TypeView
    decreases t,
{
    match t {
        TypeView::Struct(n) => if m.contains_key(n) {
            m[n]
        } else {
            t
        },
        TypeView::Nullable(inner) => TypeView::Nullable(Box::new(subst_type(*inner, m))),
        TypeView::Array(inner) => TypeView::Array(Box::new(subst_type(*inner, m))),
        _ => t,
    }
}

/// A statement with the type of a declaration substituted; other
/// statements (and nested blocks) are left as they are.
pub open spec fn subst_stmt(s: StmtV, m: Map<Seq<char>, TypeView>) -> StmtV {
    match s {
        StmtV::Declaration { name, ty, init } => StmtV::Declaration { name, ty: subst_type(ty, m), init },
        _ => s,
    }
}

/// The substitution that maps the i-th generic parameter to the i-th type
/// argument, as far as there are arguments (a later parameter of the same
/// name wins).
pub open spec fn generic_map(params: Seq<Seq<char>>, args: Seq<TypeView>) -> Map<Seq<char>, TypeView>
    decreases params.len(),
{
    if params.len() == 0 {
        Map::empty()
    } else {
        let m = generic_map(params.drop_last(), args);
        if params.len() - 1 < args.len() {
            m.insert(params.last(), args[params.len() - 1])
        } else {
            m
        }
    }
}

/// The suffix an instance's name gets: `_<type>` for each type argument.
pub open spec fn type_suffix(args: Seq<TypeView>) -> Seq<char>
    decreases args.len(),
{
    if args.len() == 0 {
        Seq::empty()
    } else {
        type_suffix(args.drop_last()) + "_"@ + type_text(args.last())
    }
}

/// A generic function instantiated with type arguments: named with the
/// arguments' suffix, without generic parameters, its parameter and return
/// types and the types of the declarations at the top of its body
/// substituted.
pub open spec fn instantiate_view(f: FunctionV, args: Seq<TypeView>) -> FunctionV {
    let m = generic_map(f.generic_params, args);
    FunctionV {
        name: f.name + type_suffix(args),
        generic_params: Seq::empty(),
        params: f.params.map_values(|p: (Seq<char>, TypeView)| (p.0, subst_type(p.1, m))),
        return_type: subst_type(f.return_type, m),
        body: match f.body {
            Some(b) => Some(b.map_values(|st: StmtV| subst_stmt(st, m))),
            None => None,
        },
        ..f
    }
}

/// The type arguments found in the statements at the top of a generic
/// function's body, in order: those of calls of the function itself, and
/// those of method calls.
pub open spec fn scan_args(body: Seq<StmtV>, name: Seq<char>) -> Seq<Seq<TypeView>>
    decreases body.len(),
{
    if body.len() == 0 {
        Seq::empty()
    } else {
        let found = scan_args(body.drop_last(), name);
        match body.last() {
            StmtV::Call { func, generic_args, .. } => if func == name && generic_args.len() > 0 {
                found.push(generic_args)
            } else {
                found
            },
            StmtV::MethodCall { generic_args, .. } => if generic_args.len() > 0 {
                found.push(generic_args)
            } else {
                found
            },
            _ => found,
        }
    }
}

/// The type arguments a generic function is instantiated with: those found
/// in its body, or `int`, `float` and `str` in turn when none are.
pub open spec fn instance_args(f: FunctionV) -> Seq<Seq<TypeView>> {
    let found = match f.body {
        Some(b) => scan_args(b, f.name),
        None => Seq::empty(),
    };
    if found.len() == 0 {
        seq![seq![TypeView::Int], seq![TypeView::Float], seq![TypeView::Str]]
    } else {
        found
    }
}

/// The instances of a generic function.
pub open spec fn instances_of(f: FunctionV) -> Seq<FunctionV> {
    instance_args(f).map_values(|a: Seq<TypeView>| instantiate_view(f, a))
}

/// The functions without generic parameters, in order.
pub open spec fn concrete_functions(fs: Seq<FunctionV>) -> Seq<FunctionV>
    decreases fs.len(),
{
    if fs.len() == 0 {
        Seq::empty()
    } else if fs.last().generic_params.len() == 0 {
        concrete_functions(fs.drop_last()).push(fs.last())
    } else {
        concrete_functions(fs.drop_last())
    }
}

/// The instances of the generic functions, in order.
pub open spec fn generic_instances(fs: Seq<FunctionV>) -> Seq<FunctionV>
    decreases fs.len(),
{
    if fs.len() == 0 {
        Seq::empty()
    } else if fs.last().generic_params.len() == 0 {
        generic_instances(fs.drop_last())
    } else {
        generic_instances(fs.drop_last()) + instances_of(fs.last())
    }
}

proof fn lemma_concrete_functions(fs: Seq<FunctionV>)
    ensures
        forall|i: int| 0 <= i < concrete_functions(fs).len() ==> (#[trigger] concrete_functions(fs)[i]).generic_params.len() == 0,
    decreases fs.len(),
{
    if fs.len() > 0 {
        lemma_concrete_functions(fs.drop_last());
    }
}

proof fn lemma_generic_instances(fs: Seq<FunctionV>)
    ensures
        forall|i: int| 0 <= i < generic_instances(fs).len() ==> (#[trigger] generic_instances(fs)[i]).generic_params.len() == 0,
    decreases fs.len(),
{
    if fs.len() > 0 {
        lemma_generic_instances(fs.drop_last());
        let prev = generic_instances(fs.drop_last());
        if fs.last().generic_params.len() > 0 {
            let inst = instances_of(fs.last());
            assert forall|i: int| 0 <= i < generic_instances(fs).len() implies (#[trigger] generic_instances(fs)[i]).generic_params.len() == 0 by {
                if i >= prev.len() {
                    assert(generic_instances(fs)[i] == inst[i - prev.len()]);
                }
            }
        }
    }
}

/// After monomorphization no function is generic: those kept had no
/// generic parameters, and every instance has had its own substituted away.
pub proof fn lemma_monomorphized_functions_are_concrete(fs: Seq<FunctionV>)
    ensures
        forall|i: int|
            0 <= i < (concrete_functions(fs) + generic_instances(fs)).len() ==> (#[trigger] (concrete_functions(fs)
                + generic_instances(fs))[i]).generic_params.len() == 0,
{
    lemma_concrete_functions(fs);
    lemma_generic_instances(fs);
    let c = concrete_functions(fs);
    let g = generic_instances(fs);
    assert forall|i: int| 0 <= i < (c + g).len() implies (#[trigger] (c + g)[i]).generic_params.len() == 0 by {
        if i < c.len() {
            assert((c + g)[i] == c[i]);
        } else {
            assert((c + g)[i] == g[i - c.len()]);
        }
    }
}

/// Substituting with no type arguments changes no type.
pub proof fn lemma_subst_nothing(t: TypeView)
    ensures
        subst_type(t, Map::empty()) == t,
    decreases t,
{
    match t {
        TypeView::Nullable(inner) => lemma_subst_nothing(*inner),
        TypeView::Array(inner) => lemma_subst_nothing(*inner),
        _ => {},
    }
}

/// The table's types as a map of type views.
pub open spec fn type_map_view(t: Table<DataType>) -> Map<Seq<char>, TypeView> {
    t@.map_values(|d: DataType| d@)
}

pub proof fn lemma_functions_view_push(s: Seq<IRFunction>, f: IRFunction)
    ensures
        functions_view(s.push(f)) == functions_view(s).push(function_view(f)),
{
    assert(functions_view(s.push(f)) =~= functions_view(s).push(function_view(f)));
}

proof fn lemma_impls_view_push(s: Seq<IRImpl>, x: IRImpl)
    ensures
        impls_view(s.push(x)) == impls_view(s).push(impl_view(x)),
{
    assert(impls_view(s.push(x)) =~= impls_view(s).push(impl_view(x)));
}

/// The type arguments and the function of each instance.
pub open spec fn instance_pairs(v: Seq<(Vec<DataType>, IRFunction)>) -> Seq<(Seq<TypeView>, FunctionV)> {
    v.map_values(|p: (Vec<DataType>, IRFunction)| (types_view(p.0@), function_view(p.1)))
}

proof fn lemma_instance_pairs_push(v: Seq<(Vec<DataType>, IRFunction)>, p: (Vec<DataType>, IRFunction))
    ensures
        instance_pairs(v.push(p)) == instance_pairs(v).push((types_view(p.0@), function_view(p.1))),
{
    assert(instance_pairs(v.push(p)) =~= instance_pairs(v).push((types_view(p.0@), function_view(p.1))));
}

/// An `impl` block as a mathematical value: its type, generic parameters,
/// methods and attributes.
pub open spec fn impl_view(i: IRImpl) -> (Seq<char>, Seq<Seq<char>>, Seq<FunctionV>, Seq<Seq<char>>) {
    (i.struct_name@, strings_view(i.generic_params@), functions_view(i.methods@), strings_view(i.attributes@))
}

/// The views of a sequence of `impl` blocks.
pub open spec fn impls_view(s: Seq<IRImpl>) -> Seq<(Seq<char>, Seq<Seq<char>>, Seq<FunctionV>, Seq<Seq<char>>)> {
    s.map_values(|i: IRImpl| impl_view(i))
}

pub fn clone_functions(v: &Vec<IRFunction>) -> (r: Vec<IRFunction>)
    ensures
        functions_view(r@) == functions_view(v@),
{
    let mut r: Vec<IRFunction> = Vec::new();
    let mut i: usize = 0;
    while i < v.len()
        invariant
            i <= v@.len(),
            functions_view(r@) == functions_view(v@).take(i as int),
        decreases v@.len() - i,
    {
        let c = clone_function(&v[i]);
        let ghost old_r = r@;
        r.push(c);
        assert(r@ == old_r.push(c));
        proof {
            lemma_functions_view_push(old_r, c);
            assert(functions_view(v@).take(i + 1) =~= functions_view(v@).take(i as int).push(function_view(v@[i as int])));
        }
        i = i + 1;
    }
    assert(functions_view(v@).take(i as int) =~= functions_view(v@));
    r
}

fn clone_impls(v: &Vec<IRImpl>) -> (r: Vec<IRImpl>)
    ensures
        impls_view(r@) == impls_view(v@),
{
    let mut r: Vec<IRImpl> = Vec::new();
    let mut i: usize = 0;
    while i < v.len()
        invariant
            i <= v@.len(),
            impls_view(r@) == impls_view(v@).take(i as int),
        decreases v@.len() - i,
    {
        let x = &v[i];
        let c = IRImpl {
            struct_name: x.struct_name.clone(),
            generic_params: clone_strings(&x.generic_params),
            methods: clone_functions(&x.methods),
            attributes: clone_strings(&x.attributes),
        };
        let ghost old_r = r@;
        r.push(c);
        assert(r@ == old_r.push(c));
        proof {
            lemma_impls_view_push(old_r, c);
            assert(impls_view(v@).take(i + 1) =~= impls_view(v@).take(i as int).push(impl_view(v@[i as int])));
        }
        i = i + 1;
    }
    assert(impls_view(v@).take(i as int) =~= impls_view(v@));
    r
}

/// Expands generic functions into one copy per set of type arguments.
pub struct Monomorphizer {
    instance_counter: usize,
    instances: Table<String>,
}

impl Monomorphizer {
    /// The number of instances numbered so far.
    pub closed spec fn instance_count(&self) -> nat {
        self.instance_counter as nat
    }

    /// The instance names recorded so far, by generic function and type
    /// arguments.
    pub closed spec fn instance_names(&self) -> Map<Seq<char>, Seq<char>> {
        self.instances@.map_values(|s: String| s@)
    }

    /// A monomorphizer that has produced no instance.
    pub fn new() -> (m: Monomorphizer)
        ensures
            m.instance_count() == 0,
            m.instance_names() == Map::<Seq<char>, Seq<char>>::empty(),
    {
        let m = Monomorphizer { instance_counter: 0, instances: Table::new() };
        assert(m.instance_names() =~= Map::<Seq<char>, Seq<char>>::empty());
        m
    }

    /// A type with generic parameters replaced (see `subst_type`).
    pub fn substitute_type(&self, dt: &DataType, type_map: &Table<DataType>) -> (r: DataType)
        ensures
            r@ == subst_type(dt@, type_map_view(*type_map)),
        decreases dt,
    {
        match dt {
            DataType::Struct(name) => match type_map.get(name.as_str()) {
                Some(t) => t.clone(),
                None => dt.clone(),
            },
            DataType::Nullable(inner) => DataType::Nullable(Box::new(self.substitute_type(&**inner, type_map))),
            DataType::Array(inner) => DataType::Array(Box::new(self.substitute_type(&**inner, type_map))),
            _ => dt.clone(),
        }
    }

    /// Substitutes the types of the declarations at the top of a block.
    fn substitute_in_block(&self, block: &mut IRBlock, type_map: &Table<DataType>)
        ensures
            stmts_view(final(block).statements@) == stmts_view(old(block).statements@).map_values(
                |st: StmtV| subst_stmt(st, type_map_view(*type_map)),
            ),
    {
        let mut old_stmts: Vec<IRStmt> = Vec::new();
        std::mem::swap(&mut old_stmts, &mut block.statements);
        let ghost m = type_map_view(*type_map);
        let ghost before = stmts_view(old_stmts@);
        let mut out: Vec<IRStmt> = Vec::new();
        let mut i: usize = 0;
        assert(old_stmts@.take(0) =~= Seq::<IRStmt>::empty());
        while i < old_stmts.len()
            invariant
                i <= old_stmts@.len(),
                stmts_view(out@) == stmts_view(old_stmts@.take(i as int)).map_values(|st: StmtV| subst_stmt(st, m)),
                m == type_map_view(*type_map),
            decreases old_stmts@.len() - i,
        {
            let st = &old_stmts[i];
            let new_st = match st {
                IRStmt::Declaration { name, ty, init } => IRStmt::Declaration {
                    name: name.clone(),
                    ty: self.substitute_type(ty, type_map),
                    init: clone_opt_expr(init),
                },
                _ => clone_stmt(st),
            };
            assert(stmt_view(new_st) == subst_stmt(stmt_view(*st), m));
            proof {
                lemma_stmts_view_push(out@, new_st);
                lemma_stmts_view_push(old_stmts@.take(i as int), *st);
                assert(old_stmts@.take(i + 1) =~= old_stmts@.take(i as int).push(*st));
            }
            out.push(new_st);
            assert(stmts_view(out@) =~= stmts_view(old_stmts@.take(i + 1)).map_values(|st: StmtV| subst_stmt(st, m)));
            i = i + 1;
        }
        assert(old_stmts@.take(i as int) =~= old_stmts@);
        block.statements = out;
    }

    /// The substitution from a function's generic parameters to type
    /// arguments (see `generic_map`).
    fn type_map_for(params: &Vec<String>, type_args: &[DataType]) -> (t: Table<DataType>)
        ensures
            type_map_view(t) == generic_map(strings_view(params@), types_view(type_args@)),
    {
        let mut t: Table<DataType> = Table::new();
        let ghost ps = strings_view(params@);
        let ghost args = types_view(type_args@);
        let mut i: usize = 0;
        assert(type_map_view(t) =~= generic_map(ps.take(0), args));
        while i < params.len()
            invariant
                i <= params@.len(),
                ps == strings_view(params@),
                args == types_view(type_args@),
                type_map_view(t) == generic_map(ps.take(i as int), args),
            decreases params@.len() - i,
        {
            assert(ps.take(i + 1).drop_last() =~= ps.take(i as int));
            if i < type_args.len() {
                t.insert(params[i].clone(), type_args[i].clone());
                assert(type_map_view(t) =~= generic_map(ps.take(i as int), args).insert(ps[i as int], args[i as int]));
            }
            i = i + 1;
        }
        assert(ps.take(i as int) =~= ps);
        t
    }

    /// A generic function instantiated with type arguments (see
    /// `instantiate_view`).
    fn instantiate_function(&mut self, func: &IRFunction, type_args: &[DataType]) -> (r: IRFunction)
        ensures
            function_view(r) == instantiate_view(function_view(*func), types_view(type_args@)),
            *final(self) == *old(self),
    {
        let ghost args = types_view(type_args@);
        let mut name = func.name.clone();
        let mut i: usize = 0;
        assert(args.take(0) =~= Seq::<TypeView>::empty());
        while i < type_args.len()
            invariant
                i <= type_args@.len(),
                args == types_view(type_args@),
                name@ == func.name@ + type_suffix(args.take(i as int)),
            decreases type_args@.len() - i,
        {
            name.append("_");
            append_type_name(&mut name, &type_args[i]);
            assert(args.take(i + 1).drop_last() =~= args.take(i as int));
            assert(name@ =~= func.name@ + type_suffix(args.take(i + 1)));
            i = i + 1;
        }
        assert(args.take(i as int) =~= args);
        let type_map = Self::type_map_for(&func.generic_params, type_args);
        let ghost m = type_map_view(type_map);
        let mut params: Vec<IRParam> = Vec::new();
        let mut j: usize = 0;
        while j < func.params.len()
            invariant
                j <= func.params@.len(),
                params@.len() == j,
                m == type_map_view(type_map),
                forall|k: int| 0 <= k < j ==> {
                    &&& (#[trigger] params@[k]).name@ == func.params@[k].name@
                    &&& params@[k].ty@ == subst_type(func.params@[k].ty@, m)
                },
            decreases func.params@.len() - j,
        {
            let p = IRParam { name: func.params[j].name.clone(), ty: self.substitute_type(&func.params[j].ty, &type_map) };
            params.push(p);
            j = j + 1;
        }
        let return_type = self.substitute_type(&func.return_type, &type_map);
        let body = match &func.body {
            Some(b) => {
                let mut nb = IRBlock { statements: clone_stmts(&b.statements) };
                self.substitute_in_block(&mut nb, &type_map);
                Some(nb)
            },
            None => None,
        };
        let r = IRFunction {
            name,
            generic_params: Vec::new(),
            params,
            return_type,
            body,
            is_main: func.is_main,
            is_method: func.is_method,
            struct_name: match &func.struct_name {
                Some(n) => Some(n.clone()),
                None => None,
            },
            attributes: clone_strings(&func.attributes),
            is_variadic: func.is_variadic,
        };
        assert(function_view(r).params =~= instantiate_view(function_view(*func), args).params);
        assert(function_view(r).generic_params =~= Seq::<Seq<char>>::empty());
        assert(function_view(r) == instantiate_view(function_view(*func), args));
        r
    }

    /// Adds an instance of `func` for each set of type arguments found in
    /// the statements at the top of `block` (see `scan_args`).
    fn scan_for_type_args(
        &mut self,
        block: &IRBlock,
        generic_params: &Vec<String>,
        instances: &mut Vec<(Vec<DataType>, IRFunction)>,
        func: &IRFunction,
    )
        ensures
            instance_pairs(final(instances)@) == instance_pairs(old(instances)@) + scan_args(
                stmts_view(block.statements@),
                func.name@,
            ).map_values(|a: Seq<TypeView>| (a, instantiate_view(function_view(*func), a))),
            *final(self) == *old(self),
    {
        let ghost fv = function_view(*func);
        let ghost body = stmts_view(block.statements@);
        let mut i: usize = 0;
        assert(block.statements@.take(0) =~= Seq::<IRStmt>::empty());
        assert(instance_pairs(instances@) =~= instance_pairs(old(instances)@) + scan_args(
            stmts_view(block.statements@.take(0)),
            func.name@,
        ).map_values(|a: Seq<TypeView>| (a, instantiate_view(fv, a))));
        while i < block.statements.len()
            invariant
                i <= block.statements@.len(),
                fv == function_view(*func),
                *self == *old(self),
                instance_pairs(instances@) == instance_pairs(old(instances)@) + scan_args(
                    stmts_view(block.statements@.take(i as int)),
                    func.name@,
                ).map_values(|a: Seq<TypeView>| (a, instantiate_view(fv, a))),
            decreases block.statements@.len() - i,
        {
            let ghost prev = stmts_view(block.statements@.take(i as int));
            proof {
                lemma_stmts_view_push(block.statements@.take(i as int), block.statements@[i as int]);
                assert(block.statements@.take(i + 1) =~= block.statements@.take(i as int).push(block.statements@[i as int]));
                assert(stmts_view(block.statements@.take(i + 1)).drop_last() =~= prev);
            }
            let found: Option<Vec<DataType>> = match &block.statements[i] {
                IRStmt::Call { func: call_name, generic_args, .. } => {
                    if str_eq(call_name.as_str(), func.name.as_str()) && generic_args.len() > 0 {
                        Some(clone_types(generic_args))
                    } else {
                        None
                    }
                },
                IRStmt::MethodCall { generic_args, .. } => {
                    if generic_args.len() > 0 {
                        Some(clone_types(generic_args))
                    } else {
                        None
                    }
                },
                _ => None,
            };
            match found {
                Some(type_args) => {
                    let instance = self.instantiate_function(func, type_args.as_slice());
                    let ghost a = types_view(type_args@);
                    proof {
                        lemma_instance_pairs_push(instances@, (type_args, instance));
                    }
                    instances.push((type_args, instance));
                    assert(instance_pairs(instances@) =~= instance_pairs(old(instances)@) + scan_args(
                        stmts_view(block.statements@.take(i + 1)),
                        func.name@,
                    ).map_values(|a: Seq<TypeView>| (a, instantiate_view(fv, a))));
                },
                None => {
                    assert(scan_args(stmts_view(block.statements@.take(i + 1)), func.name@) == scan_args(prev, func.name@));
                },
            }
            i = i + 1;
        }
        assert(block.statements@.take(i as int) =~= block.statements@);
    }

    /// The instances of a generic function: one for each set of type
    /// arguments found in its body, or one each for `int`, `float` and `str`
    /// when none are found (see `instance_args`).
    fn collect_instances(&mut self, ir: &GobolIR, func: &IRFunction) -> (r: Vec<(Vec<DataType>, IRFunction)>)
        ensures
            instance_pairs(r@) == instance_args(function_view(*func)).map_values(
                |a: Seq<TypeView>| (a, instantiate_view(function_view(*func), a)),
            ),
            *final(self) == *old(self),
    {
        let ghost fv = function_view(*func);
        let mut instances: Vec<(Vec<DataType>, IRFunction)> = Vec::new();
        match &func.body {
            Some(body) => {
                self.scan_for_type_args(body, &func.generic_params, &mut instances, func);
            },
            None => {},
        }
        assert(instance_pairs(Seq::<(Vec<DataType>, IRFunction)>::empty()) =~= Seq::<(Seq<TypeView>, FunctionV)>::empty());
        if instances.len() == 0 {
            let ghost found = match fv.body {
                Some(b) => scan_args(b, fv.name),
                None => Seq::empty(),
            };
            assert(found.map_values(|a: Seq<TypeView>| (a, instantiate_view(fv, a))).len() == 0);
            assert(found.len() == 0);
            let mut args_int: Vec<DataType> = Vec::new();
            args_int.push(DataType::Int);
            let inst_int = self.instantiate_function(func, args_int.as_slice());
            let mut args_float: Vec<DataType> = Vec::new();
            args_float.push(DataType::Float);
            let inst_float = self.instantiate_function(func, args_float.as_slice());
            let mut args_str: Vec<DataType> = Vec::new();
            args_str.push(DataType::Str);
            let inst_str = self.instantiate_function(func, args_str.as_slice());
            assert(types_view(args_int@) =~= seq![TypeView::Int]);
            assert(types_view(args_float@) =~= seq![TypeView::Float]);
            assert(types_view(args_str@) =~= seq![TypeView::Str]);
            instances.push((args_int, inst_int));
            instances.push((args_float, inst_float));
            instances.push((args_str, inst_str));
            assert(instance_pairs(instances@) =~= seq![seq![TypeView::Int], seq![TypeView::Float], seq![TypeView::Str]].map_values(
                |a: Seq<TypeView>| (a, instantiate_view(fv, a)),
            ));
        } else {
            assert(instance_args(fv) == match fv.body {
                Some(b) => scan_args(b, fv.name),
                None => Seq::<Seq<TypeView>>::empty(),
            });
        }
        instances
    }

    /// Expands the generic functions of a program: the functions without
    /// generic parameters are kept, in order, followed by the instances of
    /// the generic ones (see `instances_of`); the structs, impls and main
    /// function are copied.
    pub fn monomorphize(&mut self, ir: &GobolIR) -> (r: GobolIR)
        ensures
            functions_view(r.functions@) == concrete_functions(functions_view(ir.functions@)) + generic_instances(
                functions_view(ir.functions@),
            ),
            r.structs@.len() == ir.structs@.len(),
            forall|i: int| 0 <= i < ir.structs@.len() ==> same_struct(#[trigger] r.structs@[i], ir.structs@[i]),
            impls_view(r.impls@) == impls_view(ir.impls@),
            r.main_function == ir.main_function,
    {
        let ghost fs = functions_view(ir.functions@);
        let mut generic_functions: Vec<IRFunction> = Vec::new();
        let mut concrete: Vec<IRFunction> = Vec::new();
        let mut i: usize = 0;
        assert(fs.take(0) =~= Seq::<FunctionV>::empty());
        while i < ir.functions.len()
            invariant
                i <= ir.functions@.len(),
                fs == functions_view(ir.functions@),
                functions_view(concrete@) == concrete_functions(fs.take(i as int)),
                functions_view(generic_functions@) == generic_instances(fs.take(i as int)),
            decreases ir.functions@.len() - i,
        {
            let func = &ir.functions[i];
            assert(fs.take(i + 1).drop_last() =~= fs.take(i as int));
            assert(fs.take(i + 1).last() == function_view(*func));
            if func.generic_params.len() > 0 {
                let instances = self.collect_instances(ir, func);
                let ghost before = functions_view(generic_functions@);
                let mut k: usize = 0;
                while k < instances.len()
                    invariant
                        k <= instances@.len(),
                        functions_view(generic_functions@) == before + instance_pairs(instances@).take(k as int).map_values(
                            |p: (Seq<TypeView>, FunctionV)| p.1,
                        ),
                    decreases instances@.len() - k,
                {
                    let copy = clone_function(&instances[k].1);
                    let ghost old_g = generic_functions@;
                    generic_functions.push(copy);
                    assert(generic_functions@ == old_g.push(copy));
                    assert(instance_pairs(instances@)[k as int].1 == function_view(instances@[k as int].1));
                    proof {
                        lemma_functions_view_push(old_g, copy);
                        let ps = instance_pairs(instances@);
                        assert(ps.take(k + 1).map_values(|p: (Seq<TypeView>, FunctionV)| p.1) =~= ps.take(k as int).map_values(
                            |p: (Seq<TypeView>, FunctionV)| p.1,
                        ).push(ps[k as int].1));
                    }
                    k = k + 1;
                }
                assert(instance_pairs(instances@).take(k as int) =~= instance_pairs(instances@));
                assert(instance_pairs(instances@).map_values(|p: (Seq<TypeView>, FunctionV)| p.1) =~= instances_of(
                    function_view(*func),
                ));
            } else {
                let copy = clone_function(func);
                let ghost before_c = concrete@;
                concrete.push(copy);
                assert(functions_view(concrete@) =~= functions_view(before_c).push(function_view(copy)));
            }
            i = i + 1;
        }
        assert(fs.take(i as int) =~= fs);
        let mut functions = concrete;
        let ghost cv = functions_view(functions@);
        let mut k: usize = 0;
        while k < generic_functions.len()
            invariant
                k <= generic_functions@.len(),
                functions_view(functions@) == cv + functions_view(generic_functions@).take(k as int),
            decreases generic_functions@.len() - k,
        {
            let copy = clone_function(&generic_functions[k]);
            let ghost old_f = functions@;
            functions.push(copy);
            assert(functions@ == old_f.push(copy));
            proof {
                lemma_functions_view_push(old_f, copy);
                let gv = functions_view(generic_functions@);
                assert(gv.take(k + 1) =~= gv.take(k as int).push(gv[k as int]));
                assert(cv + gv.take(k + 1) =~= (cv + gv.take(k as int)).push(gv[k as int]));
            }
            k = k + 1;
        }
        assert(functions_view(generic_functions@).take(k as int) =~= functions_view(generic_functions@));
        let mut structs: Vec<IRStruct> = Vec::new();
        let mut j: usize = 0;
        while j < ir.structs.len()
            invariant
                j <= ir.structs@.len(),
                structs@.len() == j,
                forall|k: int| 0 <= k < j ==> same_struct(#[trigger] structs@[k], ir.structs@[k]),
            decreases ir.structs@.len() - j,
        {
            structs.push(ir.structs[j].clone());
            j = j + 1;
        }
        let impls = clone_impls(&ir.impls);
        GobolIR {
            functions,
            structs,
            impls,
            main_function: match &ir.main_function {
                Some(m) => Some(m.clone()),
                None => None,
            },
        }
    }
}

// ==================== free variables of lambdas ====================

/// `free` after recording a use of `name`: added at the end unless it is
/// bound or already recorded.
pub open spec fn use_name(name: Seq<char>, bound: Seq<Seq<char>>, free: Seq<Seq<char>>) -> Seq<Seq<char>> {
    if bound.contains(name) || free.contains(name) {
        free
    } else {
        free.push(name)
    }
}

/// The names an expression uses that are not in `bound`, appended to
/// `free` in order of first use. A function called by plain name is not a
/// use of a variable; a `match` arm that binds a name has it bound in its
/// body; the inside of a nested lambda is not looked at.
pub open spec fn fv_expr(e: Expression, bound: Seq<Seq<char>>, free: Seq<Seq<char>>) -> Seq<Seq<char>>
    decreases e, 0nat,
{
    match e {
        Expression::Identifier(name) => use_name(name@, bound, free),
        Expression::Binary { left, right, .. } => {
            let f1 = match left {
                Some(l) => fv_expr(*l, bound, free),
                None => free,
            };
            match right {
                Some(r) => fv_expr(*r, bound, f1),
                None => f1,
            }
        },
        Expression::Unary { operand: Some(o), .. } => fv_expr(*o, bound, free),
        Expression::Cast { expression: Some(x), .. } => fv_expr(*x, bound, free),
        Expression::FunctionCall { callee, arguments } => {
            let f1 = match callee {
                Some(c) => match *c {
                    Expression::Identifier(_) => free,
                    _ => fv_expr(*c, bound, free),
                },
                None => free,
            };
            match arguments {
                Some(args) => fv_exprs(args@, bound, f1),
                None => f1,
            }
        },
        Expression::MemberAccess { object: Some(o), .. } => fv_expr(*o, bound, free),
        Expression::ArrayIndex { array, index } => {
            let f1 = match array {
                Some(a) => fv_expr(*a, bound, free),
                None => free,
            };
            match index {
                Some(i) => fv_expr(*i, bound, f1),
                None => f1,
            }
        },
        Expression::Grouped(Some(x)) => fv_expr(*x, bound, free),
        Expression::ArrayLiteral(items) => fv_exprs(items@, bound, free),
        Expression::StructLiteral { fields, .. } => fv_inits(fields@, bound, free),
        Expression::Range(args) => fv_exprs(args@, bound, free),
        Expression::Try(Some(x)) => fv_expr(*x, bound, free),
        Expression::FormatString { values, .. } => fv_opt_exprs(values@, bound, free),
        Expression::Match { scrutinee, arms } => {
            let f1 = match scrutinee {
                Some(x) => fv_expr(*x, bound, free),
                None => free,
            };
            fv_arms(arms@, bound, f1)
        },
        _ => free,
    }
}

/// The name `x` is used as a variable somewhere in `e` outside a nested
/// lambda, a `match`, a struct literal or a format string: as the
/// expression itself, or inside an operand, an operator's argument, a cast,
/// a member access's object, an array or its index, a grouping, an array
/// literal's or a range's items, a `?`, a call's arguments, or a call's
/// callee that is not a plain name.
pub open spec fn uses_name(e: Expression, x: Seq<char>) -> bool
    decreases e, 0nat,
{
    match e {
        Expression::Identifier(n) => n@ == x,
        Expression::Binary { left, right, .. } => (match left {
            Some(l) => uses_name(*l, x),
            None => false,
        }) || (match right {
            Some(r) => uses_name(*r, x),
            None => false,
        }),
        Expression::Unary { operand: Some(o), .. } => uses_name(*o, x),
        Expression::Cast { expression: Some(c), .. } => uses_name(*c, x),
        Expression::FunctionCall { callee, arguments } => (match callee {
            Some(c) => !(*c is Identifier) && uses_name(*c, x),
            None => false,
        }) || (match arguments {
            Some(args) => uses_name_in(args@, x),
            None => false,
        }),
        Expression::MemberAccess { object: Some(o), .. } => uses_name(*o, x),
        Expression::ArrayIndex { array, index } => (match array {
            Some(a) => uses_name(*a, x),
            None => false,
        }) || (match index {
            Some(i) => uses_name(*i, x),
            None => false,
        }),
        Expression::Grouped(Some(g)) => uses_name(*g, x),
        Expression::ArrayLiteral(items) => uses_name_in(items@, x),
        Expression::Range(items) => uses_name_in(items@, x),
        Expression::Try(Some(t)) => uses_name(*t, x),
        _ => false,
    }
}

/// The name `x` is used in one of the expressions (see `uses_name`).
pub open spec fn uses_name_in(s: Seq<Expression>, x: Seq<char>) -> bool
    decreases s, 1nat,
{
    if s.len() == 0 {
        false
    } else {
        uses_name_in(s.drop_last(), x) || uses_name(s.last(), x)
    }
}

/// `fv_expr` over expressions in order.
pub open spec fn fv_exprs(s: Seq<Expression>, bound: Seq<Seq<char>>, free: Seq<Seq<char>>) -> Seq<Seq<char>>
    decreases s, 1nat,
{
    if s.len() == 0 {
        free
    } else {
        fv_expr(s.last(), bound, fv_exprs(s.drop_last(), bound, free))
    }
}

/// `fv_expr` over interpolated values in order.
pub open spec fn fv_opt_exprs(s: Seq<Option<Box<Expression>>>, bound: Seq<Seq<char>>, free: Seq<Seq<char>>) -> Seq<Seq<char>>
    decreases s, 1nat,
{
    if s.len() == 0 {
        free
    } else {
        let f1 = fv_opt_exprs(s.drop_last(), bound, free);
        match s.last() {
            Some(x) => fv_expr(*x, bound, f1),
            None => f1,
        }
    }
}

/// `fv_expr` over a struct literal's field values in order.
pub open spec fn fv_inits(s: Seq<StructFieldInit>, bound: Seq<Seq<char>>, free: Seq<Seq<char>>) -> Seq<Seq<char>>
    decreases s, 1nat,
{
    if s.len() == 0 {
        free
    } else {
        let f1 = fv_inits(s.drop_last(), bound, free);
        match s.last() {
            StructFieldInit::Named { value, .. } => fv_expr(*value, bound, f1),
            StructFieldInit::Positional(x) => fv_expr(*x, bound, f1),
        }
    }
}

/// The names used in `match` arms in order, each arm's body with its
/// pattern's variable bound.
pub open spec fn fv_arms(s: Seq<MatchArm>, bound: Seq<Seq<char>>, free: Seq<Seq<char>>) -> Seq<Seq<char>>
    decreases s, 1nat,
{
    if s.len() == 0 {
        free
    } else {
        let f1 = fv_arms(s.drop_last(), bound, free);
        let arm = s.last();
        let arm_bound = match arm.pattern {
            MatchPattern::Variable(n) => bound.push(n@),
            _ => bound,
        };
        match arm.body {
            Some(b) => fv_stmt(*b, arm_bound, f1).1,
            None => f1,
        }
    }
}

/// The names a statement uses that are not bound, appended to `free` in
/// order of first use, and the names bound after it: a declaration binds
/// its name after its initialiser, a `for` binds its loop variables; names
/// declared in a nested block are bound only inside it.
pub open spec fn fv_stmt(st: Statement, bound: Seq<Seq<char>>, free: Seq<Seq<char>>) -> (Seq<Seq<char>>, Seq<Seq<char>>)
    decreases st, 0nat,
{
    match st {
        Statement::Declaration { name, initializer, .. } => {
            let f1 = match initializer {
                Some(x) => fv_expr(*x, bound, free),
                None => free,
            };
            (bound.push(name@), f1)
        },
        Statement::Block(b) => (bound, fv_stmts(b.statements@, bound, free).1),
        Statement::Expression(Some(x)) => (bound, fv_expr(*x, bound, free)),
        Statement::Return(Some(x)) => (bound, fv_expr(*x, bound, free)),
        Statement::If { condition, then_branch, else_branch } => {
            let f1 = match condition {
                Some(c) => fv_expr(*c, bound, free),
                None => free,
            };
            let (b2, f2) = match then_branch {
                Some(t) => fv_stmt(*t, bound, f1),
                None => (bound, f1),
            };
            match else_branch {
                Some(x) => fv_stmt(*x, b2, f2),
                None => (b2, f2),
            }
        },
        Statement::While { condition, body } => {
            let f1 = match condition {
                Some(c) => fv_expr(*c, bound, free),
                None => free,
            };
            match body {
                Some(b) => fv_stmt(*b, bound, f1),
                None => (bound, f1),
            }
        },
        Statement::For { variables, iterable, body } => {
            let f1 = match iterable {
                Some(x) => fv_expr(*x, bound, free),
                None => free,
            };
            let b2 = bound + strings_view(variables@);
            match body {
                Some(b) => (b2, fv_stmts(b.statements@, b2, f1).1),
                None => (b2, f1),
            }
        },
        Statement::Match(x) => (bound, fv_expr(*x, bound, free)),
        _ => (bound, free),
    }
}

/// `fv_stmt` over statements in order, threading the bound names.
pub open spec fn fv_stmts(s: Seq<Statement>, bound: Seq<Seq<char>>, free: Seq<Seq<char>>) -> (Seq<Seq<char>>, Seq<Seq<char>>)
    decreases s, 1nat,
{
    if s.len() == 0 {
        (bound, free)
    } else {
        let (b1, f1) = fv_stmts(s.drop_last(), bound, free);
        fv_stmt(s.last(), b1, f1)
    }
}

fn contains_name(v: &Vec<String>, name: &str) -> (r: bool)
    ensures
        r == strings_view(v@).contains(name@),
{
    let mut i: usize = 0;
    while i < v.len()
        invariant
            i <= v@.len(),
            forall|k: int| 0 <= k < i ==> v@[k]@ != name@,
        decreases v@.len() - i,
    {
        if str_eq(v[i].as_str(), name) {
            assert(strings_view(v@)[i as int] == name@);
            return true;
        }
        i = i + 1;
    }
    proof {
        if strings_view(v@).contains(name@) {
            let k = choose|k: int| 0 <= k < strings_view(v@).len() && strings_view(v@)[k] == name@;
            assert(v@[k]@ == name@);
        }
    }
    false
}

fn push_name(v: &mut Vec<String>, name: String)
    ensures
        strings_view(final(v)@) == strings_view(old(v)@).push(name@),
{
    v.push(name);
    assert(strings_view(v@) =~= strings_view(old(v)@).push(name@));
}

fn record_use(name: &String, bound: &Vec<String>, free: &mut Vec<String>)
    ensures
        strings_view(final(free)@) == use_name(name@, strings_view(bound@), strings_view(old(free)@)),
{
    if !contains_name(bound, name.as_str()) && !contains_name(free, name.as_str()) {
        push_name(free, name.clone());
    }
}

/// Appends to `free`, in order of first use, the names an expression uses
/// that are neither in `bound` nor in `free` already (see `fv_expr`).
pub fn collect_free_vars_from_expr(expr: &Expression, bound: &Vec<String>, free: &mut Vec<String>)
    ensures
        strings_view(final(free)@) == fv_expr(*expr, strings_view(bound@), strings_view(old(free)@)),
    decreases expr, 0nat,
{
    match expr {
        Expression::Identifier(name) => record_use(name, bound, free),
        Expression::Binary { left, right, .. } => {
            match left {
                Some(l) => collect_free_vars_from_expr(&**l, bound, free),
                None => {},
            }
            match right {
                Some(r) => collect_free_vars_from_expr(&**r, bound, free),
                None => {},
            }
        },
        Expression::Unary { operand: Some(o), .. } => collect_free_vars_from_expr(&**o, bound, free),
        Expression::Cast { expression: Some(x), .. } => collect_free_vars_from_expr(&**x, bound, free),
        Expression::FunctionCall { callee, arguments } => {
            match callee {
                Some(c) => match &**c {
                    Expression::Identifier(_) => {},
                    _ => collect_free_vars_from_expr(&**c, bound, free),
                },
                None => {},
            }
            match arguments {
                Some(args) => free_vars_of_exprs(args, bound, free),
                None => {},
            }
        },
        Expression::MemberAccess { object: Some(o), .. } => collect_free_vars_from_expr(&**o, bound, free),
        Expression::ArrayIndex { array, index } => {
            match array {
                Some(a) => collect_free_vars_from_expr(&**a, bound, free),
                None => {},
            }
            match index {
                Some(i) => collect_free_vars_from_expr(&**i, bound, free),
                None => {},
            }
        },
        Expression::Grouped(Some(x)) => collect_free_vars_from_expr(&**x, bound, free),
        Expression::ArrayLiteral(items) => free_vars_of_exprs(items, bound, free),
        Expression::StructLiteral { fields, .. } => free_vars_of_inits(fields, bound, free),
        Expression::Range(args) => free_vars_of_exprs(args, bound, free),
        Expression::Try(Some(x)) => collect_free_vars_from_expr(&**x, bound, free),
        Expression::FormatString { values, .. } => free_vars_of_values(values, bound, free),
        Expression::Match { scrutinee, arms } => {
            match scrutinee {
                Some(x) => collect_free_vars_from_expr(&**x, bound, free),
                None => {},
            }
            free_vars_of_arms(arms, bound, free);
        },
        _ => {},
    }
}

fn free_vars_of_exprs(s: &Vec<Expression>, bound: &Vec<String>, free: &mut Vec<String>)
    ensures
        strings_view(final(free)@) == fv_exprs(s@, strings_view(bound@), strings_view(old(free)@)),
    decreases s, 1nat,
{
    let ghost b = strings_view(bound@);
    let ghost f0 = strings_view(free@);
    let mut i: usize = 0;
    assert(s@.take(0) =~= Seq::<Expression>::empty());
    while i < s.len()
        invariant
            i <= s@.len(),
            b == strings_view(bound@),
            strings_view(free@) == fv_exprs(s@.take(i as int), b, f0),
        decreases s@.len() - i,
    {
        proof {
            assert(decreases_to!(s => s@[i as int]));
        }
        collect_free_vars_from_expr(&s[i], bound, free);
        assert(s@.take(i + 1).drop_last() =~= s@.take(i as int));
        i = i + 1;
    }
    assert(s@.take(i as int) =~= s@);
}

fn free_vars_of_values(s: &Vec<Option<Box<Expression>>>, bound: &Vec<String>, free: &mut Vec<String>)
    ensures
        strings_view(final(free)@) == fv_opt_exprs(s@, strings_view(bound@), strings_view(old(free)@)),
    decreases s, 1nat,
{
    let ghost b = strings_view(bound@);
    let ghost f0 = strings_view(free@);
    let mut i: usize = 0;
    assert(s@.take(0) =~= Seq::<Option<Box<Expression>>>::empty());
    while i < s.len()
        invariant
            i <= s@.len(),
            b == strings_view(bound@),
            strings_view(free@) == fv_opt_exprs(s@.take(i as int), b, f0),
        decreases s@.len() - i,
    {
        assert(s@.take(i + 1).drop_last() =~= s@.take(i as int));
        match &s[i] {
            Some(x) => {
                proof {
                    assert(decreases_to!(s => s@[i as int]));
                }
                collect_free_vars_from_expr(&**x, bound, free);
            },
            None => {},
        }
        i = i + 1;
    }
    assert(s@.take(i as int) =~= s@);
}

fn free_vars_of_inits(s: &Vec<StructFieldInit>, bound: &Vec<String>, free: &mut Vec<String>)
    ensures
        strings_view(final(free)@) == fv_inits(s@, strings_view(bound@), strings_view(old(free)@)),
    decreases s, 1nat,
{
    let ghost b = strings_view(bound@);
    let ghost f0 = strings_view(free@);
    let mut i: usize = 0;
    assert(s@.take(0) =~= Seq::<StructFieldInit>::empty());
    while i < s.len()
        invariant
            i <= s@.len(),
            b == strings_view(bound@),
            strings_view(free@) == fv_inits(s@.take(i as int), b, f0),
        decreases s@.len() - i,
    {
        assert(s@.take(i + 1).drop_last() =~= s@.take(i as int));
        proof {
            assert(decreases_to!(s => s@[i as int]));
        }
        match &s[i] {
            StructFieldInit::Named { value, .. } => collect_free_vars_from_expr(&**value, bound, free),
            StructFieldInit::Positional(x) => collect_free_vars_from_expr(&**x, bound, free),
        }
        i = i + 1;
    }
    assert(s@.take(i as int) =~= s@);
}

fn free_vars_of_arms(s: &Vec<MatchArm>, bound: &Vec<String>, free: &mut Vec<String>)
    ensures
        strings_view(final(free)@) == fv_arms(s@, strings_view(bound@), strings_view(old(free)@)),
    decreases s, 1nat,
{
    let ghost b = strings_view(bound@);
    let ghost f0 = strings_view(free@);
    let mut i: usize = 0;
    assert(s@.take(0) =~= Seq::<MatchArm>::empty());
    while i < s.len()
        invariant
            i <= s@.len(),
            b == strings_view(bound@),
            strings_view(free@) == fv_arms(s@.take(i as int), b, f0),
        decreases s@.len() - i,
    {
        assert(s@.take(i + 1).drop_last() =~= s@.take(i as int));
        let arm = &s[i];
        let mut arm_bound = clone_strings(bound);
        match &arm.pattern {
            MatchPattern::Variable(n) => push_name(&mut arm_bound, n.clone()),
            _ => {},
        }
        match &arm.body {
            Some(body) => {
                proof {
                    assert(decreases_to!(s => s@[i as int]));
                }
                collect_free_vars_from_stmt(&**body, &mut arm_bound, free);
            },
            None => {},
        }
        i = i + 1;
    }
    assert(s@.take(i as int) =~= s@);
}

/// Appends to `free` the names a statement uses that are not bound (see
/// `fv_stmt`), and adds to `bound` the names it binds for what follows.
pub fn collect_free_vars_from_stmt(stmt: &Statement, bound: &mut Vec<String>, free: &mut Vec<String>)
    ensures
        (strings_view(final(bound)@), strings_view(final(free)@)) == fv_stmt(
            *stmt,
            strings_view(old(bound)@),
            strings_view(old(free)@),
        ),
    decreases stmt, 0nat,
{
    match stmt {
        Statement::Declaration { name, initializer, .. } => {
            match initializer {
                Some(x) => collect_free_vars_from_expr(&**x, bound, free),
                None => {},
            }
            push_name(bound, name.clone());
        },
        Statement::Block(b) => collect_free_vars_from_block(b, bound, free),
        Statement::Expression(Some(x)) => collect_free_vars_from_expr(&**x, bound, free),
        Statement::Return(Some(x)) => collect_free_vars_from_expr(&**x, bound, free),
        Statement::If { condition, then_branch, else_branch } => {
            match condition {
                Some(c) => collect_free_vars_from_expr(&**c, bound, free),
                None => {},
            }
            match then_branch {
                Some(t) => collect_free_vars_from_stmt(&**t, bound, free),
                None => {},
            }
            match else_branch {
                Some(e) => collect_free_vars_from_stmt(&**e, bound, free),
                None => {},
            }
        },
        Statement::While { condition, body } => {
            match condition {
                Some(c) => collect_free_vars_from_expr(&**c, bound, free),
                None => {},
            }
            match body {
                Some(b) => collect_free_vars_from_stmt(&**b, bound, free),
                None => {},
            }
        },
        Statement::For { variables, iterable, body } => {
            match iterable {
                Some(x) => collect_free_vars_from_expr(&**x, bound, free),
                None => {},
            }
            let ghost b0 = strings_view(bound@);
            let mut k: usize = 0;
            while k < variables.len()
                invariant
                    k <= variables@.len(),
                    strings_view(bound@) == b0 + strings_view(variables@).take(k as int),
                decreases variables@.len() - k,
            {
                push_name(bound, variables[k].clone());
                assert(b0 + strings_view(variables@).take(k + 1) =~= (b0 + strings_view(variables@).take(k as int)).push(
                    variables@[k as int]@,
                ));
                k = k + 1;
            }
            assert(strings_view(variables@).take(k as int) =~= strings_view(variables@));
            match body {
                Some(b) => {
                    let mut local = clone_strings(bound);
                    collect_free_vars_from_block(b, &mut local, free);
                },
                None => {},
            }
        },
        Statement::Match(x) => collect_free_vars_from_expr(&**x, bound, free),
        _ => {},
    }
}

/// Appends to `free` the names a block uses that are not bound; names
/// declared in the block are bound only inside it, so `bound` is left as
/// it was.
pub fn collect_free_vars_from_block(block: &Block, bound: &mut Vec<String>, free: &mut Vec<String>)
    ensures
        *final(bound) == *old(bound),
        strings_view(final(free)@) == fv_stmts(block.statements@, strings_view(old(bound)@), strings_view(old(free)@)).1,
    decreases block, 1nat,
{
    let mut local_bound = clone_strings(bound);
    let ghost b = strings_view(bound@);
    let ghost f0 = strings_view(free@);
    let s = &block.statements;
    let mut i: usize = 0;
    assert(s@.take(0) =~= Seq::<Statement>::empty());
    while i < s.len()
        invariant
            i <= s@.len(),
            s == &block.statements,
            (strings_view(local_bound@), strings_view(free@)) == fv_stmts(s@.take(i as int), b, f0),
        decreases s@.len() - i,
    {
        proof {
            assert(decreases_to!(block => s@[i as int]));
        }
        collect_free_vars_from_stmt(&s[i], &mut local_bound, free);
        assert(s@.take(i + 1).drop_last() =~= s@.take(i as int));
        i = i + 1;
    }
    assert(s@.take(i as int) =~= s@);
}

/// No name occurs twice.
pub open spec fn no_dups(s: Seq<Seq<char>>) -> bool {
    forall|i: int, j: int| 0 <= i < j < s.len() ==> s[i] != s[j]
}

/// `after` is `free` with names appended: none of them in `bound`, and
/// without duplicates when `free` has none.
pub open spec fn extends_free(bound: Seq<Seq<char>>, free: Seq<Seq<char>>, after: Seq<Seq<char>>) -> bool {
    &&& free.len() <= after.len()
    &&& after.subrange(0, free.len() as int) == free
    &&& no_dups(free) ==> no_dups(after)
    &&& forall|k: int| free.len() <= k < after.len() ==> !bound.contains(#[trigger] after[k])
}

/// Every name of `a` is in `b`.
pub open spec fn covers(a: Seq<Seq<char>>, b: Seq<Seq<char>>) -> bool {
    forall|n: Seq<char>| a.contains(n) ==> #[trigger] b.contains(n)
}

proof fn lemma_extends_refl(b: Seq<Seq<char>>, f: Seq<Seq<char>>)
    ensures
        extends_free(b, f, f),
{
    assert(f.subrange(0, f.len() as int) =~= f);
}

proof fn lemma_extends_trans(b1: Seq<Seq<char>>, b2: Seq<Seq<char>>, f1: Seq<Seq<char>>, f2: Seq<Seq<char>>, f3: Seq<Seq<char>>)
    requires
        extends_free(b1, f1, f2),
        extends_free(b2, f2, f3),
        covers(b1, b2),
    ensures
        extends_free(b1, f1, f3),
{
    assert(f3.subrange(0, f1.len() as int) =~= f2.subrange(0, f1.len() as int)) by {
        assert forall|k: int| 0 <= k < f1.len() implies f3[k] == f2[k] by {
            assert(f3.subrange(0, f2.len() as int)[k] == f2[k]);
        }
    }
    assert forall|k: int| f1.len() <= k < f3.len() implies !b1.contains(#[trigger] f3[k]) by {
        if k < f2.len() {
            assert(f3.subrange(0, f2.len() as int)[k] == f2[k]);
        } else {
            assert(!b2.contains(f3[k]));
        }
    }
}

proof fn lemma_use_name(name: Seq<char>, bound: Seq<Seq<char>>, free: Seq<Seq<char>>)
    ensures
        extends_free(bound, free, use_name(name, bound, free)),
{
    lemma_extends_refl(bound, free);
    if !(bound.contains(name) || free.contains(name)) {
        let after = free.push(name);
        assert(after.subrange(0, free.len() as int) =~= free);
        assert(no_dups(free) ==> no_dups(after)) by {
            if no_dups(free) {
                assert forall|i: int, j: int| 0 <= i < j < after.len() implies after[i] != after[j] by {
                    if j == free.len() {
                        assert(free[i] == after[i]);
                    }
                }
            }
        }
    }
}

proof fn lemma_fv_expr(e: Expression, b: Seq<Seq<char>>, f: Seq<Seq<char>>)
    ensures
        extends_free(b, f, fv_expr(e, b, f)),
    decreases e, 0nat,
{
    lemma_extends_refl(b, f);
    match e {
        Expression::Identifier(name) => lemma_use_name(name@, b, f),
        Expression::Binary { left, right, .. } => {
            let f1 = match left {
                Some(l) => {
                    lemma_fv_expr(*l, b, f);
                    fv_expr(*l, b, f)
                },
                None => f,
            };
            match right {
                Some(r) => {
                    lemma_fv_expr(*r, b, f1);
                    lemma_extends_trans(b, b, f, f1, fv_expr(*r, b, f1));
                },
                None => {},
            }
        },
        Expression::Unary { operand: Some(o), .. } => lemma_fv_expr(*o, b, f),
        Expression::Cast { expression: Some(x), .. } => lemma_fv_expr(*x, b, f),
        Expression::FunctionCall { callee, arguments } => {
            let f1 = match callee {
                Some(c) => match *c {
                    Expression::Identifier(_) => f,
                    _ => {
                        lemma_fv_expr(*c, b, f);
                        fv_expr(*c, b, f)
                    },
                },
                None => f,
            };
            lemma_extends_refl(b, f1);
            match arguments {
                Some(args) => {
                    lemma_fv_exprs(args@, b, f1);
                    lemma_extends_trans(b, b, f, f1, fv_exprs(args@, b, f1));
                },
                None => {},
            }
        },
        Expression::MemberAccess { object: Some(o), .. } => lemma_fv_expr(*o, b, f),
        Expression::ArrayIndex { array, index } => {
            let f1 = match array {
                Some(a) => {
                    lemma_fv_expr(*a, b, f);
                    fv_expr(*a, b, f)
                },
                None => f,
            };
            match index {
                Some(i) => {
                    lemma_fv_expr(*i, b, f1);
                    lemma_extends_trans(b, b, f, f1, fv_expr(*i, b, f1));
                },
                None => {},
            }
        },
        Expression::Grouped(Some(x)) => lemma_fv_expr(*x, b, f),
        Expression::ArrayLiteral(items) => lemma_fv_exprs(items@, b, f),
        Expression::StructLiteral { fields, .. } => lemma_fv_inits(fields@, b, f),
        Expression::Range(args) => lemma_fv_exprs(args@, b, f),
        Expression::Try(Some(x)) => lemma_fv_expr(*x, b, f),
        Expression::FormatString { values, .. } => lemma_fv_opt_exprs(values@, b, f),
        Expression::Match { scrutinee, arms } => {
            let f1 = match scrutinee {
                Some(x) => {
                    lemma_fv_expr(*x, b, f);
                    fv_expr(*x, b, f)
                },
                None => f,
            };
            lemma_fv_arms(arms@, b, f1);
            lemma_extends_trans(b, b, f, f1, fv_arms(arms@, b, f1));
        },
        _ => {},
    }
}

proof fn lemma_fv_exprs(s: Seq<Expression>, b: Seq<Seq<char>>, f: Seq<Seq<char>>)
    ensures
        extends_free(b, f, fv_exprs(s, b, f)),
    decreases s, 1nat,
{
    lemma_extends_refl(b, f);
    if s.len() > 0 {
        lemma_fv_exprs(s.drop_last(), b, f);
        let f1 = fv_exprs(s.drop_last(), b, f);
        lemma_fv_expr(s.last(), b, f1);
        lemma_extends_trans(b, b, f, f1, fv_expr(s.last(), b, f1));
    }
}

proof fn lemma_fv_opt_exprs(s: Seq<Option<Box<Expression>>>, b: Seq<Seq<char>>, f: Seq<Seq<char>>)
    ensures
        extends_free(b, f, fv_opt_exprs(s, b, f)),
    decreases s, 1nat,
{
    lemma_extends_refl(b, f);
    if s.len() > 0 {
        lemma_fv_opt_exprs(s.drop_last(), b, f);
        let f1 = fv_opt_exprs(s.drop_last(), b, f);
        match s.last() {
            Some(x) => {
                lemma_fv_expr(*x, b, f1);
                lemma_extends_trans(b, b, f, f1, fv_expr(*x, b, f1));
            },
            None => {},
        }
    }
}

proof fn lemma_fv_inits(s: Seq<StructFieldInit>, b: Seq<Seq<char>>, f: Seq<Seq<char>>)
    ensures
        extends_free(b, f, fv_inits(s, b, f)),
    decreases s, 1nat,
{
    lemma_extends_refl(b, f);
    if s.len() > 0 {
        lemma_fv_inits(s.drop_last(), b, f);
        let f1 = fv_inits(s.drop_last(), b, f);
        match s.last() {
            StructFieldInit::Named { value, .. } => {
                lemma_fv_expr(*value, b, f1);
                lemma_extends_trans(b, b, f, f1, fv_expr(*value, b, f1));
            },
            StructFieldInit::Positional(x) => {
                lemma_fv_expr(*x, b, f1);
                lemma_extends_trans(b, b, f, f1, fv_expr(*x, b, f1));
            },
        }
    }
}

proof fn lemma_fv_arms(s: Seq<MatchArm>, b: Seq<Seq<char>>, f: Seq<Seq<char>>)
    ensures
        extends_free(b, f, fv_arms(s, b, f)),
    decreases s, 1nat,
{
    lemma_extends_refl(b, f);
    if s.len() > 0 {
        lemma_fv_arms(s.drop_last(), b, f);
        let f1 = fv_arms(s.drop_last(), b, f);
        let arm = s.last();
        let arm_bound = match arm.pattern {
            MatchPattern::Variable(n) => b.push(n@),
            _ => b,
        };
        assert(covers(b, arm_bound)) by {
            assert forall|n: Seq<char>| b.contains(n) implies #[trigger] arm_bound.contains(n) by {
                let k = choose|k: int| 0 <= k < b.len() && b[k] == n;
                assert(arm_bound[k] == n);
            }
        }
        match arm.body {
            Some(body) => {
                lemma_fv_stmt(*body, arm_bound, f1);
                let f2 = fv_stmt(*body, arm_bound, f1).1;
                assert(extends_free(b, f1, f2));
                lemma_extends_trans(b, b, f, f1, f2);
            },
            None => {},
        }
    }
}

proof fn lemma_covers_refl(b: Seq<Seq<char>>)
    ensures
        covers(b, b),
{
}

proof fn lemma_covers_append(b: Seq<Seq<char>>, more: Seq<Seq<char>>)
    ensures
        covers(b, b + more),
{
    assert forall|n: Seq<char>| b.contains(n) implies #[trigger] (b + more).contains(n) by {
        let k = choose|k: int| 0 <= k < b.len() && b[k] == n;
        assert((b + more)[k] == n);
    }
}

proof fn lemma_fv_stmt(st: Statement, b: Seq<Seq<char>>, f: Seq<Seq<char>>)
    ensures
        extends_free(b, f, fv_stmt(st, b, f).1),
        covers(b, fv_stmt(st, b, f).0),
    decreases st, 0nat,
{
    lemma_extends_refl(b, f);
    lemma_covers_refl(b);
    match st {
        Statement::Declaration { name, initializer, .. } => {
            match initializer {
                Some(x) => lemma_fv_expr(*x, b, f),
                None => {},
            }
            lemma_covers_append(b, seq![name@]);
            assert(b + seq![name@] =~= b.push(name@));
        },
        Statement::Block(blk) => lemma_fv_stmts(blk.statements@, b, f),
        Statement::Expression(Some(x)) => lemma_fv_expr(*x, b, f),
        Statement::Return(Some(x)) => lemma_fv_expr(*x, b, f),
        Statement::If { condition, then_branch, else_branch } => {
            let f1 = match condition {
                Some(c) => {
                    lemma_fv_expr(*c, b, f);
                    fv_expr(*c, b, f)
                },
                None => f,
            };
            lemma_extends_refl(b, f1);
            let (b2, f2) = match then_branch {
                Some(t) => {
                    lemma_fv_stmt(*t, b, f1);
                    fv_stmt(*t, b, f1)
                },
                None => (b, f1),
            };
            lemma_extends_trans(b, b, f, f1, f2);
            match else_branch {
                Some(x) => {
                    lemma_fv_stmt(*x, b2, f2);
                    let (b3, f3) = fv_stmt(*x, b2, f2);
                    lemma_extends_trans(b, b2, f, f2, f3);
                    assert(covers(b, b3));
                },
                None => {},
            }
        },
        Statement::While { condition, body } => {
            let f1 = match condition {
                Some(c) => {
                    lemma_fv_expr(*c, b, f);
                    fv_expr(*c, b, f)
                },
                None => f,
            };
            match body {
                Some(x) => {
                    lemma_fv_stmt(*x, b, f1);
                    lemma_extends_trans(b, b, f, f1, fv_stmt(*x, b, f1).1);
                },
                None => {},
            }
        },
        Statement::For { variables, iterable, body } => {
            let f1 = match iterable {
                Some(x) => {
                    lemma_fv_expr(*x, b, f);
                    fv_expr(*x, b, f)
                },
                None => f,
            };
            let b2 = b + strings_view(variables@);
            lemma_covers_append(b, strings_view(variables@));
            match body {
                Some(blk) => {
                    lemma_fv_stmts(blk.statements@, b2, f1);
                    lemma_extends_trans(b, b2, f, f1, fv_stmts(blk.statements@, b2, f1).1);
                },
                None => {},
            }
        },
        Statement::Match(x) => lemma_fv_expr(*x, b, f),
        _ => {},
    }
}

proof fn lemma_fv_stmts(s: Seq<Statement>, b: Seq<Seq<char>>, f: Seq<Seq<char>>)
    ensures
        extends_free(b, f, fv_stmts(s, b, f).1),
        covers(b, fv_stmts(s, b, f).0),
    decreases s, 1nat,
{
    lemma_extends_refl(b, f);
    lemma_covers_refl(b);
    if s.len() > 0 {
        lemma_fv_stmts(s.drop_last(), b, f);
        let (b1, f1) = fv_stmts(s.drop_last(), b, f);
        lemma_fv_stmt(s.last(), b1, f1);
        let (b2, f2) = fv_stmt(s.last(), b1, f1);
        lemma_extends_trans(b, b1, f, f1, f2);
    }
}

proof fn lemma_fv_expr_keeps(e: Expression, b: Seq<Seq<char>>, f: Seq<Seq<char>>, y: Seq<char>)
    requires
        f.contains(y),
    ensures
        fv_expr(e, b, f).contains(y),
{
    lemma_fv_expr(e, b, f);
    let k = choose|k: int| 0 <= k < f.len() && f[k] == y;
    assert(fv_expr(e, b, f).subrange(0, f.len() as int)[k] == y);
}

proof fn lemma_fv_exprs_keeps(s: Seq<Expression>, b: Seq<Seq<char>>, f: Seq<Seq<char>>, y: Seq<char>)
    requires
        f.contains(y),
    ensures
        fv_exprs(s, b, f).contains(y),
{
    lemma_fv_exprs(s, b, f);
    let k = choose|k: int| 0 <= k < f.len() && f[k] == y;
    assert(fv_exprs(s, b, f).subrange(0, f.len() as int)[k] == y);
}

/// Nothing a lambda's body uses is missed: every name used as a variable
/// in an expression (see `uses_name`, which looks inside operands, member
/// accesses' objects, call arguments and the like) that is not bound ends
/// up among the free names collected from it, and names collected before
/// stay.
pub proof fn lemma_used_names_are_free(e: Expression, bound: Seq<Seq<char>>, free: Seq<Seq<char>>, x: Seq<char>)
    requires
        uses_name(e, x) || free.contains(x),
        !bound.contains(x) || free.contains(x),
    ensures
        fv_expr(e, bound, free).contains(x),
    decreases e, 0nat,
{
    if free.contains(x) {
        lemma_fv_expr_keeps(e, bound, free, x);
        return;
    }
    match e {
        Expression::Identifier(n) => {
            assert(use_name(n@, bound, free).last() == x);
        },
        Expression::Binary { left, right, .. } => {
            let f1 = match left {
                Some(l) => fv_expr(*l, bound, free),
                None => free,
            };
            match left {
                Some(l) => {
                    if uses_name(*l, x) {
                        lemma_used_names_are_free(*l, bound, free, x);
                    }
                },
                None => {},
            }
            match right {
                Some(r) => {
                    lemma_used_names_are_free(*r, bound, f1, x);
                },
                None => {},
            }
        },
        Expression::Unary { operand: Some(o), .. } => lemma_used_names_are_free(*o, bound, free, x),
        Expression::Cast { expression: Some(c), .. } => lemma_used_names_are_free(*c, bound, free, x),
        Expression::FunctionCall { callee, arguments } => {
            let f1 = match callee {
                Some(c) => match *c {
                    Expression::Identifier(_) => free,
                    _ => fv_expr(*c, bound, free),
                },
                None => free,
            };
            match callee {
                Some(c) => {
                    if !(*c is Identifier) && uses_name(*c, x) {
                        lemma_used_names_are_free(*c, bound, free, x);
                    }
                },
                None => {},
            }
            match arguments {
                Some(args) => {
                    lemma_used_names_in_are_free(args@, bound, f1, x);
                },
                None => {},
            }
        },
        Expression::MemberAccess { object: Some(o), .. } => lemma_used_names_are_free(*o, bound, free, x),
        Expression::ArrayIndex { array, index } => {
            let f1 = match array {
                Some(a) => fv_expr(*a, bound, free),
                None => free,
            };
            match array {
                Some(a) => {
                    if uses_name(*a, x) {
                        lemma_used_names_are_free(*a, bound, free, x);
                    }
                },
                None => {},
            }
            match index {
                Some(i) => {
                    lemma_used_names_are_free(*i, bound, f1, x);
                },
                None => {},
            }
        },
        Expression::Grouped(Some(g)) => lemma_used_names_are_free(*g, bound, free, x),
        Expression::ArrayLiteral(items) => lemma_used_names_in_are_free(items@, bound, free, x),
        Expression::Range(items) => lemma_used_names_in_are_free(items@, bound, free, x),
        Expression::Try(Some(t)) => lemma_used_names_are_free(*t, bound, free, x),
        _ => {},
    }
}

/// `lemma_used_names_are_free` over expressions in order.
pub proof fn lemma_used_names_in_are_free(s: Seq<Expression>, bound: Seq<Seq<char>>, free: Seq<Seq<char>>, x: Seq<char>)
    requires
        uses_name_in(s, x) || free.contains(x),
        !bound.contains(x) || free.contains(x),
    ensures
        fv_exprs(s, bound, free).contains(x),
    decreases s, 1nat,
{
    if s.len() > 0 {
        let f1 = fv_exprs(s.drop_last(), bound, free);
        if uses_name_in(s.drop_last(), x) || free.contains(x) {
            lemma_used_names_in_are_free(s.drop_last(), bound, free, x);
        }
        lemma_used_names_are_free(s.last(), bound, f1, x);
    }
}

/// What a lambda's body captures: collecting its free names only appends
/// to the names already collected (keeping them first, in order), never
/// appends a name that is bound where the collection starts, and appends
/// no name twice, so the list stays free of duplicates.
pub proof fn lemma_free_vars_first_use_order(st: Statement, bound: Seq<Seq<char>>, free: Seq<Seq<char>>)
    ensures
        extends_free(bound, free, fv_stmt(st, bound, free).1),
{
    lemma_fv_stmt(st, bound, free);
}

} // verus!
