//! The syntax tree, as far as the analyses of this library read it:
//! top-level definitions, expressions, statements, blocks and type
//! annotations.
use vstd::prelude::*;

verus! {

/// A type annotation as written in the source.
pub enum TypeNode {
    /// A plain named type: `int`, `float`, `str`, `bool`, or a struct or
    /// generic parameter name.
    Basic(String),
    /// A generic instantiation such as `Vec<int>`.
    Generic { base: String, args: Vec<TypeNode> },
    /// `T?`
    Nullable(Box<TypeNode>),
    /// A function type `func(T): U`.
    Function,
    /// `T[]` or `T[n]`.
    Array { element: Box<TypeNode>, size: Option<Box<Expression>> },
}

/// An expression.
pub enum Expression {
    Identifier(String),
    NumberLiteral(String),
    StringLiteral(String),
    BooleanLiteral(bool),
    NullLiteral,
    /// A `module::member` path: the modules, then the member.
    PathAccess { path: Vec<String>, member: String },
    Binary { op: String, left: Option<Box<Expression>>, right: Option<Box<Expression>> },
    Unary { op: String, operand: Option<Box<Expression>> },
    Cast { expression: Option<Box<Expression>>, target: Option<Box<TypeNode>> },
    FunctionCall { callee: Option<Box<Expression>>, arguments: Option<Vec<Expression>> },
    MemberAccess { object: Option<Box<Expression>>, member: String },
    ArrayIndex { array: Option<Box<Expression>>, index: Option<Box<Expression>> },
    Grouped(Option<Box<Expression>>),
    ArrayLiteral(Vec<Expression>),
    StructLiteral { name: String, fields: Vec<StructFieldInit> },
    Range(Vec<Expression>),
    /// The `?` operator.
    Try(Option<Box<Expression>>),
    /// `@"...{x}..."`: the text and the interpolated expressions.
    FormatString { text: String, values: Vec<Option<Box<Expression>>> },
    Match { scrutinee: Option<Box<Expression>>, arms: Vec<MatchArm> },
    Lambda { params: Vec<String>, body: Option<Box<Statement>> },
}

/// A field initialiser in a struct literal.
pub enum StructFieldInit {
    Named { name: String, value: Box<Expression> },
    Positional(Box<Expression>),
}

/// A pattern of a `match` arm.
pub enum MatchPattern {
    /// Binds the matched value to a name.
    Variable(String),
    /// Matches a value equal to an expression.
    Literal(Box<Expression>),
    /// `_`
    Wildcard,
}

/// An arm of a `match`.
pub struct MatchArm {
    pub pattern: MatchPattern,
    pub body: Option<Box<Statement>>,
}

/// A statement.
pub enum Statement {
    /// `let`, `var` or `const` (the keyword), a name, an optional type
    /// annotation and an optional initializer.
    Declaration { keyword: String, name: String, var_type: Option<Box<TypeNode>>, initializer: Option<Box<Expression>> },
    Block(Block),
    Expression(Option<Box<Expression>>),
    Return(Option<Box<Expression>>),
    If {
        condition: Option<Box<Expression>>,
        then_branch: Option<Box<Statement>>,
        else_branch: Option<Box<Statement>>,
    },
    While { condition: Option<Box<Expression>>, body: Option<Box<Statement>> },
    For { variables: Vec<String>, iterable: Option<Box<Expression>>, body: Option<Block> },
    /// A `match` in statement position.
    Match(Box<Expression>),
    Break,
    Continue,
    Function(Box<Function>),
    StructDefinition(StructDefinition),
    EnumDefinition(EnumDefinition),
    TraitDefinition(TraitDefinition),
    ImplBlock(ImplBlock),
    ExternBlock(ExternBlock),
    /// `import a::b as c`: the module's path as written and its alias.
    Import { module: String, alias: Option<String> },
    /// `from m import x as y, z` (each member with its alias), or
    /// `from m import *`.
    FromImport { module: String, members: Vec<(String, Option<String>)>, wildcard: bool },
    /// `export(a, m.b)`: the names a module exports.
    Export(Vec<String>),
}

/// A parameter of a function.
pub struct Parameter {
    pub name: String,
    pub param_type: Option<Box<TypeNode>>,
}

/// A function or method definition.
pub struct Function {
    pub name: String,
    pub generic_params: Vec<String>,
    /// `None` when the parameter list could not be read.
    pub parameters: Option<Vec<Parameter>>,
    pub return_type: Option<Box<TypeNode>>,
    /// The names of its attributes, such as `debug` or `no_export`.
    pub attributes: Vec<String>,
    pub body: Option<Block>,
    /// An `extern "C"` function whose parameters end with `...`.
    pub is_variadic: bool,
}

/// A field of a struct definition.
pub struct StructField {
    pub name: String,
    pub field_type: Option<Box<TypeNode>>,
}

/// A struct definition.
pub struct StructDefinition {
    pub name: String,
    pub generic_params: Vec<String>,
    pub fields: Vec<StructField>,
    pub attributes: Vec<String>,
}

/// A variant of an enum, with the type of its payload if it has one.
pub struct EnumVariant {
    pub name: String,
    pub payload_type: Option<Box<TypeNode>>,
}

/// An enum definition.
pub struct EnumDefinition {
    pub name: String,
    pub generic_params: Vec<String>,
    pub variants: Vec<EnumVariant>,
    pub attributes: Vec<String>,
}

/// A method that a trait declares.
pub struct TraitMethod {
    pub name: String,
    pub parameters: Vec<Parameter>,
    pub attributes: Vec<String>,
}

/// A trait definition.
pub struct TraitDefinition {
    pub name: String,
    pub generic_params: Vec<String>,
    pub methods: Vec<TraitMethod>,
    pub attributes: Vec<String>,
}

/// An item of an `impl` block: a method, or a conversion.
pub enum ImplItem {
    Method(Function),
    Convert(Function),
}

/// An `impl` block, `impl Type` or `impl Trait for Type`.
pub struct ImplBlock {
    pub struct_name: String,
    pub trait_name: Option<String>,
    pub generic_params: Vec<String>,
    pub items: Vec<ImplItem>,
}

/// An `extern "C"` block.
pub struct ExternBlock {
    /// The library it links, as written after `extern` (`"C"` is the ABI).
    pub library: Option<String>,
    /// The C header its `#[header("...")]` attribute names.
    pub header: Option<String>,
    pub functions: Vec<Function>,
}

/// A whole program: its top-level statements.
pub struct Program {
    pub statements: Vec<Statement>,
}

/// A braced sequence of statements.
pub struct Block {
    pub statements: Vec<Statement>,
}

} // verus!
