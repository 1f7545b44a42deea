//! Types of values, symbols, and the scoped symbol table used by semantic
//! analysis.
use vstd::prelude::*;
use crate::ast::Expression;
use crate::text::{owned, int_decimal, append_int, nat_digits, append_nat};

verus! {

broadcast use vstd::string::group_string_axioms;

/// The static type of a value.
#[derive(Debug)]
pub enum DataType {
    Int,
    Float,
    Str,
    Bool,
    None_,
    Unknown,
    Struct(String),
    Nullable(Box<DataType>),
    Array(Box<DataType>),
}

/// A type as a mathematical value: struct names are character sequences.
pub enum TypeView {
    Int,
    Float,
    Str,
    Bool,
    None_,
    Unknown,
    Struct(Seq<char>),
    Nullable(Box<TypeView>),
    Array(Box<TypeView>),
}

impl DataType {
    /// This type as a mathematical value.
    pub open spec fn spec_view(&self) -> TypeView
        decreases self,
    {
        match self {
            DataType::Int => TypeView::Int,
            DataType::Float => TypeView::Float,
            DataType::Str => TypeView::Str,
            DataType::Bool => TypeView::Bool,
            DataType::None_ => TypeView::None_,
            DataType::Unknown => TypeView::Unknown,
            DataType::Struct(n) => TypeView::Struct(n@),
            DataType::Nullable(inner) => TypeView::Nullable(Box::new((**inner).spec_view())),
            DataType::Array(inner) => TypeView::Array(Box::new((**inner).spec_view())),
        }
    }
}

impl View for DataType {
    type V = TypeView;

    open spec fn view(&self) -> TypeView {
        self.spec_view()
    }
}

/// Whether two types are the same.
pub fn data_type_eq(a: &DataType, b: &DataType) -> (r: bool)
    ensures
        r == (a@ == b@),
    decreases a,
{
    match (a, b) {
        (DataType::Int, DataType::Int) => true,
        (DataType::Float, DataType::Float) => true,
        (DataType::Str, DataType::Str) => true,
        (DataType::Bool, DataType::Bool) => true,
        (DataType::None_, DataType::None_) => true,
        (DataType::Unknown, DataType::Unknown) => true,
        (DataType::Struct(x), DataType::Struct(y)) => *x == *y,
        (DataType::Nullable(x), DataType::Nullable(y)) => data_type_eq(&**x, &**y),
        (DataType::Array(x), DataType::Array(y)) => data_type_eq(&**x, &**y),
        _ => false,
    }
}

/// A copy of a type.
pub fn data_type_clone(a: &DataType) -> (r: DataType)
    ensures
        r == *a,
    decreases a,
{
    match a {
        DataType::Int => DataType::Int,
        DataType::Float => DataType::Float,
        DataType::Str => DataType::Str,
        DataType::Bool => DataType::Bool,
        DataType::None_ => DataType::None_,
        DataType::Unknown => DataType::Unknown,
        DataType::Struct(x) => DataType::Struct(x.clone()),
        DataType::Nullable(x) => DataType::Nullable(Box::new(data_type_clone(&**x))),
        DataType::Array(x) => DataType::Array(Box::new(data_type_clone(&**x))),
    }
}

impl Clone for DataType {
    fn clone(&self) -> (r: Self)
        ensures
            r == *self,
    {
        data_type_clone(self)
    }
}

impl PartialEq for DataType {
    fn eq(&self, other: &Self) -> (r: bool) {
        data_type_eq(self, other)
    }
}

impl vstd::std_specs::cmp::PartialEqSpecImpl for DataType {
    open spec fn obeys_eq_spec() -> bool {
        true
    }

    open spec fn eq_spec(&self, other: &Self) -> bool {
        self@ == other@
    }
}

impl Eq for DataType {
}

/// How a type is written: `int`, `float`, `str`, `bool`, `none`, `unknown`,
/// a struct's name, `T?` for a nullable type and `T[]` for an array type.
pub open spec fn type_text(t: TypeView) -> Seq<char>
    decreases t,
{
    match t {
        TypeView::Int => "int"@,
        TypeView::Float => "float"@,
        TypeView::Str => "str"@,
        TypeView::Bool => "bool"@,
        TypeView::None_ => "none"@,
        TypeView::Unknown => "unknown"@,
        TypeView::Struct(n) => n,
        TypeView::Nullable(inner) => type_text(*inner) + "?"@,
        TypeView::Array(inner) => type_text(*inner) + "[]"@,
    }
}

pub fn append_type_name(out: &mut String, dt: &DataType)
    ensures
        final(out)@ == old(out)@ + type_text(dt@),
    decreases dt,
{
    match dt {
        DataType::Int => out.append("int"),
        DataType::Float => out.append("float"),
        DataType::Str => out.append("str"),
        DataType::Bool => out.append("bool"),
        DataType::None_ => out.append("none"),
        DataType::Unknown => out.append("unknown"),
        DataType::Struct(name) => out.append(name.as_str()),
        DataType::Nullable(inner) => {
            append_type_name(out, &**inner);
            out.append("?");
        },
        DataType::Array(inner) => {
            append_type_name(out, &**inner);
            out.append("[]");
        },
    }
    assert(final(out)@ =~= old(out)@ + type_text(dt@));
}

/// How a type is written.
pub fn data_type_to_string(dt: DataType) -> (s: String)
    ensures
        s@ == type_text(dt@),
{
    let mut s = String::new();
    append_type_name(&mut s, &dt);
    s
}

/// What a name in a scope stands for.
#[derive(Debug, Clone, Copy, PartialEq, Eq, Structural)]
pub enum SymbolType {
    Variable,
    Function,
    Module,
}

/// The size of one dimension of an array: a constant, or an expression
/// evaluated at run time.
pub struct ArrayDimension {
    pub is_constant: bool,
    pub constant_size: i32,
    pub size_expr: Option<Box<Expression>>,
}

impl ArrayDimension {
    /// A dimension of constant size.
    pub fn new_constant(size: i32) -> (d: ArrayDimension)
        ensures
            d.is_constant,
            d.constant_size == size,
            d.size_expr is None,
    {
        ArrayDimension { is_constant: true, constant_size: size, size_expr: None }
    }

    /// A dimension whose size is given by an expression.
    pub fn new_expr(expr: Box<Expression>) -> (d: ArrayDimension)
        ensures
            !d.is_constant,
            d.constant_size == 0,
            d.size_expr == Some(expr),
    {
        ArrayDimension { is_constant: false, constant_size: 0, size_expr: Some(expr) }
    }
}

impl Clone for ArrayDimension {
    /// A copy of the dimension; the size expression is not copied.
    fn clone(&self) -> (d: Self)
        ensures
            d.is_constant == self.is_constant,
            d.constant_size == self.constant_size,
            d.size_expr is None,
    {
        ArrayDimension { is_constant: self.is_constant, constant_size: self.constant_size, size_expr: None }
    }
}

/// A named entry of a scope.
pub struct Symbol {
    pub name: String,
    pub symbol_type: SymbolType,
    pub data_type: DataType,
    pub scope_level: i32,
    pub module_name: String,
    pub is_mut: bool,
    pub is_array: bool,
    pub dimensions: Vec<ArrayDimension>,
}

fn clone_dimensions(dims: &Vec<ArrayDimension>) -> (r: Vec<ArrayDimension>)
    ensures
        r@.len() == dims@.len(),
        forall|i: int| 0 <= i < r@.len() ==> {
            &&& (#[trigger] r@[i]).is_constant == dims@[i].is_constant
            &&& r@[i].constant_size == dims@[i].constant_size
            &&& r@[i].size_expr is None
        },
{
    let mut r: Vec<ArrayDimension> = Vec::new();
    let mut i: usize = 0;
    while i < dims.len()
        invariant
            i <= dims@.len(),
            r@.len() == i,
            forall|k: int| 0 <= k < i ==> {
                &&& (#[trigger] r@[k]).is_constant == dims@[k].is_constant
                &&& r@[k].constant_size == dims@[k].constant_size
                &&& r@[k].size_expr is None
            },
        decreases dims@.len() - i,
    {
        r.push(dims[i].clone());
        i = i + 1;
    }
    r
}

impl Clone for Symbol {
    /// A copy of the symbol; the size expressions of its dimensions are not
    /// copied.
    fn clone(&self) -> (s: Self)
        ensures
            s.name@ == self.name@,
            s.symbol_type == self.symbol_type,
            s.data_type@ == self.data_type@,
            s.scope_level == self.scope_level,
            s.module_name@ == self.module_name@,
            s.is_mut == self.is_mut,
            s.is_array == self.is_array,
            s.dimensions@.len() == self.dimensions@.len(),
            forall|i: int| 0 <= i < s.dimensions@.len() ==> {
                &&& (#[trigger] s.dimensions@[i]).is_constant == self.dimensions@[i].is_constant
                &&& s.dimensions@[i].constant_size == self.dimensions@[i].constant_size
                &&& s.dimensions@[i].size_expr is None
            },
    {
        Symbol {
            name: self.name.clone(),
            symbol_type: self.symbol_type,
            data_type: self.data_type.clone(),
            scope_level: self.scope_level,
            module_name: self.module_name.clone(),
            is_mut: self.is_mut,
            is_array: self.is_array,
            dimensions: clone_dimensions(&self.dimensions),
        }
    }
}

impl Symbol {
    /// An immutable, non-array variable.
    pub fn new_variable(name: &str, dt: &DataType, scope: i32) -> (s: Symbol)
        ensures
            s.name@ == name@,
            s.symbol_type == SymbolType::Variable,
            s.data_type@ == dt@,
            s.scope_level == scope,
            s.module_name@ == Seq::<char>::empty(),
            !s.is_mut,
            !s.is_array,
            s.dimensions@.len() == 0,
    {
        Symbol {
            name: owned(name),
            symbol_type: SymbolType::Variable,
            data_type: dt.clone(),
            scope_level: scope,
            module_name: String::new(),
            is_mut: false,
            is_array: false,
            dimensions: Vec::new(),
        }
    }

    /// A function of `module` returning `return_type`.
    pub fn new_function(name: &str, module: &str, return_type: &DataType, scope: i32) -> (s: Symbol)
        ensures
            s.name@ == name@,
            s.symbol_type == SymbolType::Function,
            s.data_type@ == return_type@,
            s.scope_level == scope,
            s.module_name@ == module@,
            !s.is_mut,
            !s.is_array,
            s.dimensions@.len() == 0,
    {
        Symbol {
            name: owned(name),
            symbol_type: SymbolType::Function,
            data_type: return_type.clone(),
            scope_level: scope,
            module_name: owned(module),
            is_mut: false,
            is_array: false,
            dimensions: Vec::new(),
        }
    }

    /// An array variable with constant dimensions `sizes`.
    pub fn new_array_constant(name: &str, dt: &DataType, scope: i32, sizes: &[i32], is_mut: bool) -> (s: Symbol)
        ensures
            s.name@ == name@,
            s.symbol_type == SymbolType::Variable,
            s.data_type@ == dt@,
            s.scope_level == scope,
            s.module_name@ == Seq::<char>::empty(),
            s.is_mut == is_mut,
            s.is_array,
            s.dimensions@.len() == sizes@.len(),
            forall|i: int| 0 <= i < sizes@.len() ==> {
                &&& (#[trigger] s.dimensions@[i]).is_constant
                &&& s.dimensions@[i].constant_size == sizes@[i]
                &&& s.dimensions@[i].size_expr is None
            },
    {
        let mut dimensions: Vec<ArrayDimension> = Vec::new();
        let mut i: usize = 0;
        while i < sizes.len()
            invariant
                i <= sizes@.len(),
                dimensions@.len() == i,
                forall|k: int| 0 <= k < i ==> {
                    &&& (#[trigger] dimensions@[k]).is_constant
                    &&& dimensions@[k].constant_size == sizes@[k]
                    &&& dimensions@[k].size_expr is None
                },
            decreases sizes@.len() - i,
        {
            dimensions.push(ArrayDimension::new_constant(sizes[i]));
            i = i + 1;
        }
        Symbol {
            name: owned(name),
            symbol_type: SymbolType::Variable,
            data_type: dt.clone(),
            scope_level: scope,
            module_name: String::new(),
            is_mut,
            is_array: true,
            dimensions,
        }
    }

    /// An array variable whose dimensions are given by expressions.
    pub fn new_array_expr(
        name: &str,
        dt: &DataType,
        scope: i32,
        size_exprs: Vec<Box<Expression>>,
        is_mut: bool,
    ) -> (s: Symbol)
        ensures
            s.name@ == name@,
            s.symbol_type == SymbolType::Variable,
            s.data_type@ == dt@,
            s.scope_level == scope,
            s.module_name@ == Seq::<char>::empty(),
            s.is_mut == is_mut,
            s.is_array,
            s.dimensions@.len() == size_exprs@.len(),
            forall|i: int| 0 <= i < size_exprs@.len() ==> {
                &&& !(#[trigger] s.dimensions@[i]).is_constant
                &&& s.dimensions@[i].constant_size == 0
                &&& s.dimensions@[i].size_expr == Some(size_exprs@[i])
            },
    {
        let ghost exprs = size_exprs@;
        let mut rest = size_exprs;
        let mut dimensions: Vec<ArrayDimension> = Vec::new();
        while rest.len() > 0
            invariant
                dimensions@.len() + rest@.len() == exprs.len(),
                rest@ == exprs.subrange(dimensions@.len() as int, exprs.len() as int),
                forall|k: int| 0 <= k < dimensions@.len() ==> {
                    &&& !(#[trigger] dimensions@[k]).is_constant
                    &&& dimensions@[k].constant_size == 0
                    &&& dimensions@[k].size_expr == Some(exprs[k])
                },
            decreases rest@.len(),
        {
            let e = rest.remove(0);
            dimensions.push(ArrayDimension::new_expr(e));
            assert(rest@ =~= exprs.subrange(dimensions@.len() as int, exprs.len() as int));
        }
        Symbol {
            name: owned(name),
            symbol_type: SymbolType::Variable,
            data_type: dt.clone(),
            scope_level: scope,
            module_name: String::new(),
            is_mut,
            is_array: true,
            dimensions,
        }
    }

    /// The number of dimensions.
    pub fn get_dimension(&self) -> (n: usize)
        ensures
            n == self.dimensions@.len(),
    {
        self.dimensions.len()
    }

    /// The constant size of dimension `dim`; 0 when the index is out of range
    /// or the dimension is not constant.
    pub fn get_constant_size(&self, dim: i32) -> (n: i32)
        ensures
            n == if 0 <= dim < self.dimensions@.len() && self.dimensions@[dim as int].is_constant {
                self.dimensions@[dim as int].constant_size
            } else {
                0
            },
    {
        if dim < 0 || dim as usize >= self.dimensions.len() {
            return 0;
        }
        let d = &self.dimensions[dim as usize];
        if d.is_constant {
            d.constant_size
        } else {
            0
        }
    }

    /// The size expression of dimension `dim`, if the index is in range and
    /// the dimension has one.
    pub fn get_size_expr(&self, dim: i32) -> (e: Option<&Expression>)
        ensures
            e == if 0 <= dim < self.dimensions@.len() {
                match self.dimensions@[dim as int].size_expr {
                    Some(b) => Some(&*b),
                    None => None,
                }
            } else {
                None
            },
    {
        if dim < 0 || dim as usize >= self.dimensions.len() {
            return None;
        }
        match &self.dimensions[dim as usize].size_expr {
            Some(b) => Some(&**b),
            None => None,
        }
    }

    /// Whether dimension `dim` exists and has a constant size.
    pub fn is_dimension_constant(&self, dim: i32) -> (r: bool)
        ensures
            r == (0 <= dim < self.dimensions@.len() && self.dimensions@[dim as int].is_constant),
    {
        if dim < 0 || dim as usize >= self.dimensions.len() {
            return false;
        }
        self.dimensions[dim as usize].is_constant
    }
}

// ==================== the symbol table ====================

/// The symbols of one scope, keyed by name. Later entries override earlier
/// ones (a well-formed scope has no key twice).
pub open spec fn entries_map(entries: Seq<(String, Symbol)>) -> Map<Seq<char>, Symbol>
    decreases entries.len(),
{
    if entries.len() == 0 {
        Map::empty()
    } else {
        entries_map(entries.drop_last()).insert(entries.last().0@, entries.last().1)
    }
}

/// Index of the last entry with key `key`, or -1.
pub open spec fn last_index(entries: Seq<(String, Symbol)>, key: Seq<char>) -> int
    decreases entries.len(),
{
    if entries.len() == 0 {
        -1
    } else if entries.last().0@ == key {
        entries.len() - 1
    } else {
        last_index(entries.drop_last(), key)
    }
}

/// The symbol that `name` resolves to: the one in the innermost scope that
/// declares it.
pub open spec fn lookup_in(scopes: Seq<Map<Seq<char>, Symbol>>, name: Seq<char>) -> Option<Symbol>
    decreases scopes.len(),
{
    if scopes.len() == 0 {
        None
    } else if scopes.last().contains_key(name) {
        Some(scopes.last()[name])
    } else {
        lookup_in(scopes.drop_last(), name)
    }
}

/// Index of the innermost scope that declares `name`, or -1.
pub open spec fn scope_of(scopes: Seq<Map<Seq<char>, Symbol>>, name: Seq<char>) -> int
    decreases scopes.len(),
{
    if scopes.len() == 0 {
        -1
    } else if scopes.last().contains_key(name) {
        scopes.len() - 1
    } else {
        scope_of(scopes.drop_last(), name)
    }
}

/// The scopes after making sure there is at least one (the global scope).
pub open spec fn with_global(scopes: Seq<Map<Seq<char>, Symbol>>) -> Seq<Map<Seq<char>, Symbol>> {
    if scopes.len() == 0 {
        seq![Map::empty()]
    } else {
        scopes
    }
}

/// `sym` is the symbol of a variable named `name` of type `dt` declared at
/// scope level `level`.
pub open spec fn is_variable_symbol(sym: Symbol, name: Seq<char>, dt: TypeView, level: int, is_mut: bool) -> bool {
    &&& sym.name@ == name
    &&& sym.symbol_type == SymbolType::Variable
    &&& sym.data_type@ == dt
    &&& sym.scope_level == level
    &&& sym.module_name@ == Seq::<char>::empty()
    &&& sym.is_mut == is_mut
    &&& !sym.is_array
    &&& sym.dimensions@.len() == 0
}

/// The outcome of declaring key `key` in scope `idx` of `before`: refused
/// (nothing changes) when the scope already has the key, otherwise the
/// scope gains exactly that key.
pub open spec fn declared_in(
    before: Seq<Map<Seq<char>, Symbol>>,
    after: Seq<Map<Seq<char>, Symbol>>,
    idx: int,
    key: Seq<char>,
    accepted: bool,
) -> bool {
    &&& 0 <= idx < before.len()
    &&& accepted == !before[idx].contains_key(key)
    &&& after.len() == before.len()
    &&& forall|i: int| 0 <= i < before.len() && i != idx ==> after[i] == before[i]
    &&& if accepted {
        &&& after[idx].contains_key(key)
        &&& after[idx] == before[idx].insert(key, after[idx][key])
    } else {
        after[idx] == before[idx]
    }
}

proof fn lemma_entries_map(entries: Seq<(String, Symbol)>, key: Seq<char>)
    ensures
        -1 <= last_index(entries, key) < entries.len(),
        entries_map(entries).contains_key(key) <==> last_index(entries, key) >= 0,
        last_index(entries, key) >= 0 ==> {
            &&& entries[last_index(entries, key)].0@ == key
            &&& entries_map(entries)[key] == entries[last_index(entries, key)].1
        },
    decreases entries.len(),
{
    if entries.len() > 0 {
        lemma_entries_map(entries.drop_last(), key);
    }
}

/// Replacing the symbol of the entry that a key resolves to replaces the
/// value of that key and nothing else.
proof fn lemma_entries_map_update(entries: Seq<(String, Symbol)>, key: Seq<char>, sym: Symbol, name: String)
    requires
        last_index(entries, key) >= 0,
        name@ == key,
    ensures
        entries_map(entries.update(last_index(entries, key), (name, sym))) == entries_map(entries).insert(key, sym),
    decreases entries.len(),
{
    lemma_entries_map(entries, key);
    let j = last_index(entries, key);
    let upd = entries.update(j, (name, sym));
    assert(entries_map(entries) == entries_map(entries.drop_last()).insert(entries.last().0@, entries.last().1));
    assert(entries_map(upd) == entries_map(upd.drop_last()).insert(upd.last().0@, upd.last().1));
    if j == entries.len() - 1 {
        assert(upd.drop_last() =~= entries.drop_last());
        assert(entries_map(entries).insert(key, sym) =~= entries_map(entries.drop_last()).insert(key, sym));
    } else {
        assert(entries.last().0@ != key);
        assert(last_index(entries.drop_last(), key) == j);
        lemma_entries_map_update(entries.drop_last(), key, sym, name);
        assert(upd.drop_last() =~= entries.drop_last().update(j, (name, sym)));
        assert(entries_map(upd) =~= entries_map(entries).insert(key, sym));
    }
}

// ==================== laws of the symbol table ====================

/// A name resolves to its declaration in the innermost scope that declares
/// it, hiding declarations of the same name in outer scopes.
pub proof fn lemma_inner_scope_shadows(scopes: Seq<Map<Seq<char>, Symbol>>, inner: Map<Seq<char>, Symbol>, name: Seq<char>)
    ensures
        lookup_in(scopes.push(inner), name) == if inner.contains_key(name) {
            Some(inner[name])
        } else {
            lookup_in(scopes, name)
        },
{
    assert(scopes.push(inner).drop_last() =~= scopes);
}

/// Leaving a scope makes every name resolve as it did before the scope was
/// entered, whatever was declared in it.
pub proof fn lemma_exit_scope_restores(scopes: Seq<Map<Seq<char>, Symbol>>, inner: Map<Seq<char>, Symbol>, name: Seq<char>)
    ensures
        lookup_in(scopes.push(inner).drop_last(), name) == lookup_in(scopes, name),
{
    assert(scopes.push(inner).drop_last() =~= scopes);
}

/// A name that was just declared in the innermost scope resolves to that
/// declaration.
pub proof fn lemma_declared_name_resolves(
    before: Seq<Map<Seq<char>, Symbol>>,
    after: Seq<Map<Seq<char>, Symbol>>,
    name: Seq<char>,
)
    requires
        declared_in(before, after, before.len() - 1, name, true),
    ensures
        lookup_in(after, name) == Some(after.last()[name]),
{
}

/// Declaring a name changes what no other name resolves to.
pub proof fn lemma_declaration_keeps_other_names(
    before: Seq<Map<Seq<char>, Symbol>>,
    after: Seq<Map<Seq<char>, Symbol>>,
    idx: int,
    name: Seq<char>,
    accepted: bool,
    other: Seq<char>,
)
    requires
        declared_in(before, after, idx, name, accepted),
        other != name,
    ensures
        lookup_in(after, other) == lookup_in(before, other),
    decreases before.len(),
{
    let last = before.len() - 1;
    if accepted && idx == last {
        assert(after[last].contains_key(other) == before[last].contains_key(other));
    }
    if !before.last().contains_key(other) && before.len() > 1 {
        assert(after.last().contains_key(other) == before.last().contains_key(other)) by {
            if idx == last && accepted {
                assert(after[last] == before[last].insert(name, after[last][name]));
            }
        }
        if idx < last {
            lemma_declaration_keeps_other_names(before.drop_last(), after.drop_last(), idx, name, accepted, other);
        } else {
            assert(before.drop_last() =~= after.drop_last());
        }
    } else if before.last().contains_key(other) {
        if idx == last && accepted {
            assert(after[last] == before[last].insert(name, after[last][name]));
            assert(after.last()[other] == before.last()[other]);
        }
    }
}

/// A declaration in the innermost scope leaves every outer scope as it was.
pub proof fn lemma_inner_declaration_keeps_outer(
    before: Seq<Map<Seq<char>, Symbol>>,
    after: Seq<Map<Seq<char>, Symbol>>,
    name: Seq<char>,
    accepted: bool,
)
    requires
        declared_in(before, after, before.len() - 1, name, accepted),
    ensures
        after.len() == before.len(),
        after.drop_last() == before.drop_last(),
{
    assert(after.drop_last() =~= before.drop_last());
}

/// The scopes `inside` are the scopes `entered` with declarations made in
/// the innermost scope only.
pub open spec fn inner_declarations(entered: Seq<Map<Seq<char>, Symbol>>, inside: Seq<Map<Seq<char>, Symbol>>) -> bool {
    inside.len() == entered.len() && inside.drop_last() == entered.drop_last()
}

/// A declaration in the innermost scope, as `declare_variable`,
/// `declare_array_constant` and `declare_array_expr` make it (on scopes
/// that exist), keeps the scopes the entered ones with declarations in the
/// innermost scope only.
pub proof fn lemma_inner_declarations_step(
    entered: Seq<Map<Seq<char>, Symbol>>,
    inside: Seq<Map<Seq<char>, Symbol>>,
    after: Seq<Map<Seq<char>, Symbol>>,
    name: Seq<char>,
    accepted: bool,
)
    requires
        inside.len() > 0,
        inner_declarations(entered, inside),
        declared_in(with_global(inside), after, with_global(inside).len() - 1, name, accepted),
    ensures
        inner_declarations(entered, after),
{
    lemma_inner_declaration_keeps_outer(inside, after, name, accepted);
}

/// Entering a scope, declaring in it only, and leaving it gives back the
/// scopes entered on: as many of them, every name resolving as before.
pub proof fn lemma_enter_declare_exit(before: Seq<Map<Seq<char>, Symbol>>, inside: Seq<Map<Seq<char>, Symbol>>)
    requires
        inner_declarations(before.push(Map::empty()), inside),
    ensures
        inside.len() > 0,
        inside.drop_last().len() == before.len(),
        forall|name: Seq<char>| #[trigger] lookup_in(inside.drop_last(), name) == lookup_in(before, name),
{
    assert(before.push(Map::empty()).drop_last() =~= before);
}

/// Leaving a scope entered on `before`, whatever was declared in it, gives
/// back `before`: as many scopes, and every name resolving as it did.
pub proof fn lemma_scope_round_trip(before: Seq<Map<Seq<char>, Symbol>>, inside: Seq<Map<Seq<char>, Symbol>>)
    requires
        inside.len() == before.len() + 1,
        inside.drop_last() == before,
    ensures
        inside.drop_last().len() == before.len(),
        forall|name: Seq<char>| #[trigger] lookup_in(inside.drop_last(), name) == lookup_in(before, name),
{
}

proof fn lemma_scope_of_found(scopes: Seq<Map<Seq<char>, Symbol>>, name: Seq<char>)
    requires
        lookup_in(scopes, name) is Some,
    ensures
        0 <= scope_of(scopes, name) < scopes.len(),
        scopes[scope_of(scopes, name)].contains_key(name),
    decreases scopes.len(),
{
    if !scopes.last().contains_key(name) {
        lemma_scope_of_found(scopes.drop_last(), name);
    }
}

/// Writing a symbol in place where a name resolves (as through
/// `lookup_symbol_mut`) is seen by the next lookup of that name, and changes
/// what no other name resolves to, nor the number of scopes.
pub proof fn lemma_write_seen_by_lookup(scopes: Seq<Map<Seq<char>, Symbol>>, name: Seq<char>, sym: Symbol)
    requires
        lookup_in(scopes, name) is Some,
    ensures
        ({
            let i = scope_of(scopes, name);
            let after = scopes.update(i, scopes[i].insert(name, sym));
            &&& after.len() == scopes.len()
            &&& lookup_in(after, name) == Some(sym)
            &&& forall|other: Seq<char>| other != name ==> #[trigger] lookup_in(after, other) == lookup_in(scopes, other)
        }),
    decreases scopes.len(),
{
    let i = scope_of(scopes, name);
    lemma_scope_of_found(scopes, name);
    let after = scopes.update(i, scopes[i].insert(name, sym));
    if scopes.last().contains_key(name) {
        assert(after.drop_last() =~= scopes.drop_last());
        assert forall|other: Seq<char>| other != name implies #[trigger] lookup_in(after, other) == lookup_in(scopes, other) by {
            assert(after.last().contains_key(other) == scopes.last().contains_key(other));
        }
    } else {
        lemma_write_seen_by_lookup(scopes.drop_last(), name, sym);
        let j = scope_of(scopes.drop_last(), name);
        assert(j == i);
        lemma_scope_of_found(scopes.drop_last(), name);
        assert(i < scopes.len() - 1);
        assert(after.drop_last() =~= scopes.drop_last().update(i, scopes.drop_last()[i].insert(name, sym)));
        assert(after.last() == scopes.last());
        assert forall|other: Seq<char>| other != name implies #[trigger] lookup_in(after, other) == lookup_in(scopes, other) by {
            assert(lookup_in(after.drop_last(), other) == lookup_in(scopes.drop_last(), other));
        }
    }
}

/// Whether the scope `entries` holds the key `key`, and where.
fn find_entry(entries: &Vec<(String, Symbol)>, key: &String) -> (r: Option<usize>)
    ensures
        r is Some <==> entries_map(entries@).contains_key(key@),
        r matches Some(j) ==> {
            &&& j < entries@.len()
            &&& j == last_index(entries@, key@)
            &&& entries@[j as int].0@ == key@
            &&& entries_map(entries@)[key@] == entries@[j as int].1
        },
{
    proof {
        lemma_entries_map(entries@, key@);
    }
    let mut j: usize = entries.len();
    assert(entries@.subrange(0, j as int) =~= entries@);
    while j > 0
        invariant
            j <= entries@.len(),
            last_index(entries@, key@) == last_index(entries@.subrange(0, j as int), key@),
        decreases j,
    {
        assert(entries@.subrange(0, j as int).drop_last() =~= entries@.subrange(0, j - 1));
        if entries[j - 1].0 == *key {
            proof {
                lemma_entries_map(entries@, key@);
            }
            return Some(j - 1);
        }
        j = j - 1;
    }
    proof {
        lemma_entries_map(entries@, key@);
    }
    None
}

/// Adds an entry to a scope.
fn insert_entry(entries: &mut Vec<(String, Symbol)>, key: String, sym: Symbol)
    ensures
        entries_map(final(entries)@) == entries_map(old(entries)@).insert(key@, sym),
{
    entries.push((key, sym));
    assert(entries@.drop_last() =~= old(entries)@);
}

// ==================== listings ====================

/// The text of an array's dimensions: each constant size, or `expr`,
/// separated by commas.
pub open spec fn dims_text(dims: Seq<ArrayDimension>) -> Seq<char>
    decreases dims.len(),
{
    if dims.len() == 0 {
        Seq::empty()
    } else {
        let head = if dims.len() > 1 {
            dims_text(dims.drop_last()) + ","@
        } else {
            Seq::empty()
        };
        head + if dims.last().is_constant {
            int_decimal(dims.last().constant_size as int)
        } else {
            "expr"@
        }
    }
}

/// How a kind of symbol is named in a listing.
pub open spec fn kind_text(k: SymbolType) -> Seq<char> {
    match k {
        SymbolType::Variable => "variable"@,
        SymbolType::Function => "function"@,
        SymbolType::Module => "module"@,
    }
}

/// ` [module=<name>]` for a symbol of a named module, else nothing.
pub open spec fn module_suffix(sym: Symbol) -> Seq<char> {
    if sym.module_name@.len() > 0 {
        " [module="@ + sym.module_name@ + "]"@
    } else {
        Seq::empty()
    }
}

/// ` array[<dimensions>]` for an array, else nothing.
pub open spec fn array_suffix(sym: Symbol) -> Seq<char> {
    if sym.is_array {
        " array["@ + dims_text(sym.dimensions@) + "]"@
    } else {
        Seq::empty()
    }
}

/// The line that lists one symbol of a scope under the name `key`: its
/// kind, its type, its module, its dimensions when it is an array, and
/// whether it is mutable (`var`) or not (`val`).
pub open spec fn symbol_line(key: Seq<char>, sym: Symbol) -> Seq<char> {
    "  "@ + key + " : "@ + kind_text(sym.symbol_type) + " ("@ + type_text(sym.data_type@) + ")"@ + module_suffix(sym)
        + array_suffix(sym) + " ("@ + (if sym.is_mut {
        "var"@
    } else {
        "val"@
    }) + ")\n"@
}

/// The lines of a scope's entries, in the order they were made; `  (empty)`
/// for a scope without any.
pub open spec fn scope_lines(entries: Seq<(String, Symbol)>) -> Seq<char> {
    if entries.len() == 0 {
        "  (empty)\n"@
    } else {
        entry_lines(entries)
    }
}

/// The lines of entries, one after another.
pub open spec fn entry_lines(entries: Seq<(String, Symbol)>) -> Seq<char>
    decreases entries.len(),
{
    if entries.len() == 0 {
        Seq::empty()
    } else {
        entry_lines(entries.drop_last()) + symbol_line(entries.last().0@, entries.last().1)
    }
}

/// The listing of scopes `0` to `n - 1`, each under its header.
pub open spec fn scopes_lines(scopes: Seq<Seq<(String, Symbol)>>, n: nat) -> Seq<char>
    decreases n,
{
    if n == 0 {
        Seq::empty()
    } else {
        scopes_lines(scopes, (n - 1) as nat) + "Scope "@ + nat_digits((n - 1) as nat) + ":\n"@ + scope_lines(
            scopes[n - 1],
        )
    }
}

/// Appends the text of a symbol's dimensions.
fn append_dims(out: &mut String, dims: &Vec<ArrayDimension>)
    ensures
        final(out)@ == old(out)@ + dims_text(dims@),
{
    let mut i: usize = 0;
    assert(dims@.take(0) =~= Seq::<ArrayDimension>::empty());
    while i < dims.len()
        invariant
            i <= dims@.len(),
            out@ == old(out)@ + dims_text(dims@.take(i as int)),
        decreases dims@.len() - i,
    {
        let ghost before = out@;
        if i > 0 {
            out.append(",");
        }
        if dims[i].is_constant {
            append_int(out, dims[i].constant_size as i64);
        } else {
            out.append("expr");
        }
        proof {
            let t = dims@.take(i + 1);
            assert(t.drop_last() =~= dims@.take(i as int));
            assert(t.last() == dims@[i as int]);
        }
        i = i + 1;
        assert(out@ =~= old(out)@ + dims_text(dims@.take(i as int)));
    }
    assert(dims@.take(i as int) =~= dims@);
}

/// Appends the kind of a symbol.
fn append_kind(out: &mut String, k: SymbolType)
    ensures
        final(out)@ == old(out)@ + kind_text(k),
{
    match k {
        SymbolType::Variable => out.append("variable"),
        SymbolType::Function => out.append("function"),
        SymbolType::Module => out.append("module"),
    }
}

/// Appends a symbol's module, if it has one (see `module_suffix`).
fn append_module_suffix(out: &mut String, sym: &Symbol)
    ensures
        final(out)@ == old(out)@ + module_suffix(*sym),
{
    if !sym.module_name.as_str().is_empty() {
        out.append(" [module=");
        out.append(sym.module_name.as_str());
        out.append("]");
    } else {
        assert(old(out)@ + Seq::<char>::empty() =~= old(out)@);
    }
}

/// Appends an array's dimensions (see `array_suffix`).
fn append_array_suffix(out: &mut String, sym: &Symbol)
    ensures
        final(out)@ == old(out)@ + array_suffix(*sym),
{
    if sym.is_array {
        out.append(" array[");
        append_dims(out, &sym.dimensions);
        out.append("]");
    } else {
        assert(old(out)@ + Seq::<char>::empty() =~= old(out)@);
    }
}

/// Appends the line that lists a symbol (see `symbol_line`).
fn append_symbol_line(out: &mut String, key: &String, sym: &Symbol)
    ensures
        final(out)@ == old(out)@ + symbol_line(key@, *sym),
{
    let ghost o = out@;
    out.append("  ");
    out.append(key.as_str());
    out.append(" : ");
    append_kind(out, sym.symbol_type);
    out.append(" (");
    append_type_name(out, &sym.data_type);
    out.append(")");
    let ghost mid = out@;
    assert(mid =~= o + ("  "@ + key@ + " : "@ + kind_text(sym.symbol_type) + " ("@ + type_text(sym.data_type@) + ")"@));
    append_module_suffix(out, sym);
    append_array_suffix(out, sym);
    out.append(" (");
    if sym.is_mut {
        out.append("var");
    } else {
        out.append("val");
    }
    out.append(")\n");
    assert(out@ =~= o + symbol_line(key@, *sym));
}

/// Appends the lines of a scope (see `scope_lines`).
fn append_scope_lines(out: &mut String, entries: &Vec<(String, Symbol)>)
    ensures
        final(out)@ == old(out)@ + scope_lines(entries@),
{
    if entries.len() == 0 {
        out.append("  (empty)\n");
        return;
    }
    let mut i: usize = 0;
    assert(entries@.take(0) =~= Seq::<(String, Symbol)>::empty());
    while i < entries.len()
        invariant
            i <= entries@.len(),
            entries@.len() > 0,
            out@ == old(out)@ + entry_lines(entries@.take(i as int)),
        decreases entries@.len() - i,
    {
        append_symbol_line(out, &entries[i].0, &entries[i].1);
        proof {
            let t = entries@.take(i + 1);
            assert(t.drop_last() =~= entries@.take(i as int));
            assert(t.last() == entries@[i as int]);
        }
        i = i + 1;
        assert(out@ =~= old(out)@ + entry_lines(entries@.take(i as int)));
    }
    assert(entries@.take(i as int) =~= entries@);
}

/// The scoped symbol table: the global scope first, the innermost last.
pub struct Environment {
    scopes: Vec<Vec<(String, Symbol)>>,
}

impl View for Environment {
    type V = Seq<Map<Seq<char>, Symbol>>;

    closed spec fn view(&self) -> Seq<Map<Seq<char>, Symbol>> {
        self.scopes@.map_values(|entries: Vec<(String, Symbol)>| entries_map(entries@))
    }
}

impl Environment {
    /// A table with one empty (global) scope.
    pub fn new() -> (env: Environment)
        ensures
            env@ == seq![Map::<Seq<char>, Symbol>::empty()],
    {
        let mut scopes: Vec<Vec<(String, Symbol)>> = Vec::new();
        scopes.push(Vec::new());
        let env = Environment { scopes };
        assert(env@ =~= seq![Map::<Seq<char>, Symbol>::empty()]);
        env
    }

    /// Moves the scopes out of the table, leaving it without any.
    fn take_scopes(&mut self) -> (scopes: Vec<Vec<(String, Symbol)>>)
        ensures
            scopes@ == old(self).scopes@,
            final(self).scopes@.len() == 0,
    {
        let mut scopes = Vec::new();
        std::mem::swap(&mut scopes, &mut self.scopes);
        scopes
    }

    /// Opens a new innermost scope.
    pub fn enter_scope(&mut self)
        ensures
            final(self)@ == old(self)@.push(Map::empty()),
    {
        let mut scopes = self.take_scopes();
        scopes.push(Vec::new());
        self.scopes = scopes;
        assert(self@ =~= old(self)@.push(Map::empty()));
    }

    /// Closes the innermost scope, if there is one.
    pub fn exit_scope(&mut self)
        ensures
            final(self)@ == if old(self)@.len() > 0 {
                old(self)@.drop_last()
            } else {
                old(self)@
            },
    {
        let mut scopes = self.take_scopes();
        if scopes.len() > 0 {
            scopes.pop();
        }
        self.scopes = scopes;
        assert(old(self)@.len() > 0 ==> self@ =~= old(self)@.drop_last());
        assert(old(self)@.len() == 0 ==> self@ =~= old(self)@);
    }

    /// The level of the innermost scope (the global scope is level 0; -1
    /// when there is no scope).
    pub fn get_current_scope(&self) -> (level: i32)
        requires
            self@.len() <= i32::MAX,
        ensures
            level == self@.len() - 1,
    {
        self.scopes.len() as i32 - 1
    }

    /// The number of open scopes.
    pub fn get_scope_count(&self) -> (n: usize)
        ensures
            n == self@.len(),
    {
        self.scopes.len()
    }

    /// Makes sure the global scope exists.
    fn ensure_global(&mut self)
        ensures
            final(self)@ == with_global(old(self)@),
            final(self)@.len() >= 1,
    {
        let mut scopes = self.take_scopes();
        if scopes.len() == 0 {
            scopes.push(Vec::new());
        }
        self.scopes = scopes;
        assert(self@ =~= with_global(old(self)@));
    }

    /// Inserts `sym` under `key` in scope `idx` unless that scope has the key.
    fn declare_in(&mut self, idx: usize, key: String, sym: Symbol) -> (accepted: bool)
        requires
            idx < old(self)@.len(),
        ensures
            declared_in(old(self)@, final(self)@, idx as int, key@, accepted),
            accepted ==> final(self)@[idx as int][key@] == sym,
    {
        let ghost before = self@;
        if find_entry(&self.scopes[idx], &key).is_some() {
            return false;
        }
        let mut scopes = self.take_scopes();
        insert_entry(&mut scopes[idx], key, sym);
        self.scopes = scopes;
        proof {
            assert forall|i: int| 0 <= i < before.len() && i != idx implies self@[i] == before[i] by {
                assert(self.scopes@[i] == old(self).scopes@[i]);
            }
        }
        true
    }

    /// Declares a variable in the innermost scope (creating the global scope
    /// if there is none); refused when that scope already has the name.
    pub fn declare_variable(&mut self, name: &str, dt: &DataType, is_mut: bool) -> (accepted: bool)
        requires
            with_global(old(self)@).len() <= i32::MAX,
        ensures
            ({
                let s = with_global(old(self)@);
                let last = s.len() - 1;
                &&& declared_in(s, final(self)@, last, name@, accepted)
                &&& accepted ==> is_variable_symbol(final(self)@[last][name@], name@, dt@, last, is_mut)
            }),
    {
        self.ensure_global();
        let scope_level = self.get_current_scope();
        let mut sym = Symbol::new_variable(name, dt, scope_level);
        sym.is_mut = is_mut;
        let last = self.scopes.len() - 1;
        self.declare_in(last, owned(name), sym)
    }

    /// Declares a function of module `module_name` under the key
    /// `module_name.name` in the global scope (creating it if needed);
    /// refused when that key exists.
    pub fn declare_function(&mut self, name: &str, return_type: &DataType, module_name: &str) -> (accepted: bool)
        ensures
            ({
                let s = with_global(old(self)@);
                let key = module_name@ + "."@ + name@;
                &&& declared_in(s, final(self)@, 0, key, accepted)
                &&& accepted ==> {
                    let sym = final(self)@[0][key];
                    &&& sym.name@ == name@
                    &&& sym.symbol_type == SymbolType::Function
                    &&& sym.data_type@ == return_type@
                    &&& sym.scope_level == 0
                    &&& sym.module_name@ == module_name@
                    &&& !sym.is_mut && !sym.is_array
                    &&& sym.dimensions@.len() == 0
                }
            }),
    {
        self.ensure_global();
        let mut full_name = owned(module_name);
        full_name.append(".");
        full_name.append(name);
        let sym = Symbol::new_function(name, module_name, return_type, 0);
        self.declare_in(0, full_name, sym)
    }

    /// Declares a module name in the global scope (creating it if needed).
    /// Declaring it again is accepted; a name already declared as something
    /// other than a module is refused. Nothing changes unless the name is new.
    pub fn declare_module(&mut self, name: &str) -> (accepted: bool)
        ensures
            ({
                let s = with_global(old(self)@);
                if s[0].contains_key(name@) {
                    &&& final(self)@ == s
                    &&& accepted == (s[0][name@].symbol_type == SymbolType::Module)
                } else {
                    let sym = final(self)@[0][name@];
                    &&& accepted
                    &&& declared_in(s, final(self)@, 0, name@, true)
                    &&& sym.name@ == name@
                    &&& sym.symbol_type == SymbolType::Module
                    &&& sym.data_type@ == TypeView::None_
                    &&& sym.scope_level == 0
                    &&& sym.module_name@ == Seq::<char>::empty()
                    &&& !sym.is_mut && !sym.is_array
                    &&& sym.dimensions@.len() == 0
                }
            }),
    {
        self.ensure_global();
        let key = owned(name);
        match find_entry(&self.scopes[0], &key) {
            Some(j) => {
                return self.scopes[0][j].1.symbol_type == SymbolType::Module;
            },
            None => {},
        }
        let mut sym = Symbol::new_variable(name, &DataType::None_, 0);
        sym.symbol_type = SymbolType::Module;
        self.declare_in(0, key, sym)
    }

    /// Declares an array variable with constant dimensions in the innermost
    /// scope (creating the global scope if there is none); refused when that
    /// scope already has the name.
    pub fn declare_array_constant(&mut self, name: &str, element_type: &DataType, sizes: &[i32], is_mut: bool) -> (accepted: bool)
        requires
            with_global(old(self)@).len() <= i32::MAX,
        ensures
            ({
                let s = with_global(old(self)@);
                let last = s.len() - 1;
                &&& declared_in(s, final(self)@, last, name@, accepted)
                &&& accepted ==> {
                    let sym = final(self)@[last][name@];
                    &&& sym.name@ == name@
                    &&& sym.symbol_type == SymbolType::Variable
                    &&& sym.data_type@ == element_type@
                    &&& sym.scope_level == last
                    &&& sym.module_name@ == Seq::<char>::empty()
                    &&& sym.is_mut == is_mut
                    &&& sym.is_array
                    &&& sym.dimensions@.len() == sizes@.len()
                    &&& forall|i: int| 0 <= i < sizes@.len() ==> {
                        &&& (#[trigger] sym.dimensions@[i]).is_constant
                        &&& sym.dimensions@[i].constant_size == sizes@[i]
                        &&& sym.dimensions@[i].size_expr is None
                    }
                }
            }),
    {
        self.ensure_global();
        let scope_level = self.get_current_scope();
        let sym = Symbol::new_array_constant(name, element_type, scope_level, sizes, is_mut);
        let last = self.scopes.len() - 1;
        self.declare_in(last, owned(name), sym)
    }

    /// Declares an array variable whose dimensions are expressions in the
    /// innermost scope (creating the global scope if there is none); refused
    /// when that scope already has the name.
    pub fn declare_array_expr(
        &mut self,
        name: &str,
        element_type: &DataType,
        size_exprs: Vec<Box<Expression>>,
        is_mut: bool,
    ) -> (accepted: bool)
        requires
            with_global(old(self)@).len() <= i32::MAX,
        ensures
            ({
                let s = with_global(old(self)@);
                let last = s.len() - 1;
                &&& declared_in(s, final(self)@, last, name@, accepted)
                &&& accepted ==> {
                    let sym = final(self)@[last][name@];
                    &&& sym.name@ == name@
                    &&& sym.symbol_type == SymbolType::Variable
                    &&& sym.data_type@ == element_type@
                    &&& sym.scope_level == last
                    &&& sym.module_name@ == Seq::<char>::empty()
                    &&& sym.is_mut == is_mut
                    &&& sym.is_array
                    &&& sym.dimensions@.len() == size_exprs@.len()
                    &&& forall|i: int| 0 <= i < size_exprs@.len() ==> {
                        &&& !(#[trigger] sym.dimensions@[i]).is_constant
                        &&& sym.dimensions@[i].constant_size == 0
                        &&& sym.dimensions@[i].size_expr == Some(size_exprs@[i])
                    }
                }
            }),
    {
        self.ensure_global();
        let scope_level = self.get_current_scope();
        let sym = Symbol::new_array_expr(name, element_type, scope_level, size_exprs, is_mut);
        let last = self.scopes.len() - 1;
        self.declare_in(last, owned(name), sym)
    }

    /// Where `name` is declared: the innermost scope that has it, and its
    /// index in that scope.
    fn locate(&self, name: &String) -> (r: Option<(usize, usize)>)
        ensures
            r is Some <==> lookup_in(self@, name@) is Some,
            r matches Some((i, j)) ==> {
                &&& i < self.scopes@.len()
                &&& i == scope_of(self@, name@)
                &&& j < self.scopes@[i as int]@.len()
                &&& j == last_index(self.scopes@[i as int]@, name@)
                &&& self.scopes@[i as int]@[j as int].0@ == name@
                &&& lookup_in(self@, name@) == Some(self.scopes@[i as int]@[j as int].1)
            },
    {
        let mut i: usize = self.scopes.len();
        assert(self@.subrange(0, i as int) =~= self@);
        while i > 0
            invariant
                i <= self.scopes@.len(),
                self@.len() == self.scopes@.len(),
                lookup_in(self@, name@) == lookup_in(self@.subrange(0, i as int), name@),
                scope_of(self@, name@) == scope_of(self@.subrange(0, i as int), name@),
            decreases i,
        {
            let ghost pre = self@.subrange(0, i as int);
            assert(pre.drop_last() =~= self@.subrange(0, i - 1));
            assert(pre.last() == entries_map(self.scopes@[i - 1]@));
            match find_entry(&self.scopes[i - 1], name) {
                Some(j) => {
                    return Some((i - 1, j));
                },
                None => {},
            }
            i = i - 1;
        }
        None
    }

    /// The symbol `name` resolves to: the one declared in the innermost scope
    /// that has it.
    pub fn lookup_symbol(&self, name: &str) -> (r: Option<&Symbol>)
        ensures
            r is Some <==> lookup_in(self@, name@) is Some,
            r matches Some(s) ==> lookup_in(self@, name@) == Some(*s),
    {
        let key = owned(name);
        match self.locate(&key) {
            Some((i, j)) => Some(&self.scopes[i][j].1),
            None => None,
        }
    }

    /// The symbol `name` resolves to, for updating in place.
    pub fn lookup_symbol_mut(&mut self, name: &str) -> (r: Option<&mut Symbol>)
        ensures
            r is Some <==> lookup_in(old(self)@, name@) is Some,
            r is None ==> final(self)@ == old(self)@,
            r matches Some(s) ==> {
                let i = scope_of(old(self)@, name@);
                &&& lookup_in(old(self)@, name@) == Some(*s)
                &&& final(self)@ == old(self)@.update(i, old(self)@[i].insert(name@, *final(s)))
            },
            r matches Some(s) ==> lookup_in(final(self)@, name@) == Some(*final(s)),
            r matches Some(s) ==> final(self)@.len() == old(self)@.len(),
            forall|other: Seq<char>| other != name@ ==> #[trigger] lookup_in(final(self)@, other) == lookup_in(old(self)@, other),
    {
        let key = owned(name);
        match self.locate(&key) {
            Some((i, j)) => {
                let ghost entries = self.scopes@[i as int]@;
                let r = &mut self.scopes[i][j].1;
                proof {
                    lemma_write_seen_by_lookup(old(self)@, key@, *final(r));
                    lemma_entries_map_update(entries, key@, *final(r), entries[j as int].0);
                    assert(entries.update(j as int, (entries[j as int].0, *final(r))) == after_borrow(self).scopes@[i as int]@);
                    assert(after_borrow(self)@ =~= old(self)@.update(i as int, old(self)@[i as int].insert(key@, *final(r))));
                }
                Some(r)
            },
            None => None,
        }
    }

    /// Whether `name` resolves in some scope.
    pub fn is_declared(&self, name: &str) -> (r: bool)
        ensures
            r == (lookup_in(self@, name@) is Some),
    {
        self.lookup_symbol(name).is_some()
    }

    /// Whether the innermost scope declares `name`.
    pub fn is_declared_in_current_scope(&self, name: &str) -> (r: bool)
        ensures
            r == (self@.len() > 0 && self@.last().contains_key(name@)),
    {
        if self.scopes.len() == 0 {
            return false;
        }
        let key = owned(name);
        find_entry(&self.scopes[self.scopes.len() - 1], &key).is_some()
    }

    /// The symbol declared under `key` in the global scope, if any.
    pub fn lookup_global(&self, key: &str) -> (r: Option<&Symbol>)
        ensures
            r is Some <==> (self@.len() > 0 && self@[0].contains_key(key@)),
            r matches Some(s) ==> *s == self@[0][key@],
    {
        if self.scopes.len() == 0 {
            return None;
        }
        let k = owned(key);
        match find_entry(&self.scopes[0], &k) {
            Some(j) => Some(&self.scopes[0][j].1),
            None => None,
        }
    }

    /// The type of the symbol `name` resolves to, `Unknown` when it does not
    /// resolve.
    pub fn get_symbol_type(&self, name: &str) -> (t: DataType)
        ensures
            t@ == match lookup_in(self@, name@) {
                Some(s) => s.data_type@,
                None => TypeView::Unknown,
            },
    {
        match self.lookup_symbol(name) {
            Some(s) => s.data_type.clone(),
            None => DataType::Unknown,
        }
    }

    /// Whether a value of type `source` may be stored where `target` is
    /// expected: the same type, or an int where a float is expected.
    pub fn is_type_compatible(target: &DataType, source: &DataType) -> (r: bool)
        ensures
            r == (target@ == source@ || (target@ == TypeView::Float && source@ == TypeView::Int)),
    {
        if *target == *source {
            return true;
        }
        if *target == DataType::Float && *source == DataType::Int {
            return true;
        }
        false
    }

    /// Whether `dt` is `int` or `float`.
    pub fn is_numeric_type(dt: &DataType) -> (r: bool)
        ensures
            r == (dt@ == TypeView::Int || dt@ == TypeView::Float),
    {
        *dt == DataType::Int || *dt == DataType::Float
    }

    /// Drops every scope and starts again with an empty global scope.
    pub fn reset(&mut self)
        ensures
            final(self)@ == seq![Map::<Seq<char>, Symbol>::empty()],
    {
        let mut scopes = self.take_scopes();
        scopes.clear();
        scopes.push(Vec::new());
        self.scopes = scopes;
        assert(self@ =~= seq![Map::<Seq<char>, Symbol>::empty()]);
    }
    /// The entries of each scope, in the order they were made.
    pub closed spec fn scope_entries(&self) -> Seq<Seq<(String, Symbol)>> {
        self.scopes@.map_values(|entries: Vec<(String, Symbol)>| entries@)
    }

    /// Each scope's entries make up the scope as the table sees it.
    pub proof fn lemma_scope_entries(&self)
        ensures
            self.scope_entries().len() == self@.len(),
            forall|i: int| 0 <= i < self@.len() ==> #[trigger] entries_map(self.scope_entries()[i]) == self@[i],
    {
    }

    /// The listing of the innermost scope: its level, then one line per
    /// symbol (see `symbol_line`), in the order the symbols were declared;
    /// `No scopes available` when there is no scope.
    pub fn scope_listing(&self) -> (s: String)
        ensures
            s@ == if self.scope_entries().len() == 0 {
                "No scopes available\n"@
            } else {
                "=== Current Scope (level "@ + nat_digits((self.scope_entries().len() - 1) as nat) + ") ===\n"@
                    + scope_lines(self.scope_entries().last())
            },
    {
        if self.scopes.len() == 0 {
            return owned("No scopes available\n");
        }
        let n = self.scopes.len();
        let mut s = owned("=== Current Scope (level ");
        append_nat(&mut s, (n - 1) as u64);
        s.append(") ===\n");
        append_scope_lines(&mut s, &self.scopes[n - 1]);
        s
    }

    /// The listing of every scope, global first: the number of levels, then
    /// each scope's number and lines (see `scope_lines`).
    pub fn all_scopes_listing(&self) -> (s: String)
        ensures
            s@ == "=== All Scopes ("@ + nat_digits(self.scope_entries().len()) + " levels) ===\n"@ + scopes_lines(
                self.scope_entries(),
                self.scope_entries().len(),
            ),
    {
        let ghost se = self.scope_entries();
        let mut s = owned("=== All Scopes (");
        append_nat(&mut s, self.scopes.len() as u64);
        s.append(" levels) ===\n");
        let ghost head = s@;
        let mut i: usize = 0;
        while i < self.scopes.len()
            invariant
                i <= self.scopes@.len(),
                se == self.scope_entries(),
                se.len() == self.scopes@.len(),
                s@ == head + scopes_lines(se, i as nat),
            decreases self.scopes@.len() - i,
        {
            s.append("Scope ");
            append_nat(&mut s, i as u64);
            s.append(":\n");
            append_scope_lines(&mut s, &self.scopes[i]);
            assert(se[i as int] == self.scopes@[i as int]@);
            i = i + 1;
            assert(s@ =~= head + scopes_lines(se, i as nat));
        }
        s
    }

}

} // verus!
