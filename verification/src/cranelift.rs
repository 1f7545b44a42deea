//! What the native back end decides without generating code: type
//! inference over the intermediate form, the memory layout of structs,
//! return types of runtime helpers, C stubs for variadic calls, and the
//! choice of linker for a target triple.
use vstd::prelude::*;
use vstd::utf8::*;
use vstd::string::StringSliceAdditionalSpecFns;
use crate::environment::DataType;
use crate::ir::{IRExpr, IRField, IRStruct, LitValue, same_struct, strings_view};
use crate::table::Table;
use crate::text::{owned, str_chars, char_to_string, chars_to_string, bytes_before, text_before, str_eq, str_contains, str_ends_with, lower_ends_with, ascii_lower_bytes, bytes_end_with, bytes_contain, last_segment, last_path_segment, replace_seq, replace_text, nat_digits, append_nat, join_seq, join_strings};

verus! {

broadcast use vstd::string::group_string_axioms;

// ==================== TypeResolver ====================

/// Return types of the C runtime helpers.
pub open spec fn runtime_return_types() -> Map<Seq<char>, DataType> {
    map![
        "gobol_print"@ => DataType::None_,
        "gobol_println"@ => DataType::None_,
        "gobol_eprint"@ => DataType::None_,
        "gobol_eprintln"@ => DataType::None_,
        "gobol_read"@ => DataType::Str,
        "gobol_str_int"@ => DataType::Str,
        "gobol_str_float"@ => DataType::Str,
        "gobol_str_bool"@ => DataType::Str,
        "gobol_str_cat"@ => DataType::Str,
        "gobol_str_eq"@ => DataType::Bool,
        "gobol_str_len"@ => DataType::Int,
        "gobol_str_get"@ => DataType::Int,
        "gobol_str_char"@ => DataType::Str,
        "gobol_str_contains"@ => DataType::Bool,
        "gobol_str_trim"@ => DataType::Str,
        "gobol_str_replace"@ => DataType::Str,
        "gobol_math_sin"@ => DataType::Float,
        "gobol_math_cos"@ => DataType::Float,
        "gobol_math_pow"@ => DataType::Float,
        "gobol_fs_open"@ => DataType::Int,
        "gobol_fs_read_all"@ => DataType::Str,
        "gobol_fs_write"@ => DataType::Int,
        "gobol_fs_close"@ => DataType::None_,
        "gobol_fs_exists"@ => DataType::Bool,
        "gobol_tcp_connect"@ => DataType::Int,
        "gobol_tcp_send"@ => DataType::Int,
        "gobol_tcp_recv"@ => DataType::Str,
        "gobol_tcp_close"@ => DataType::None_,
        "gobol_tcp_bind"@ => DataType::Int,
        "gobol_tcp_accept"@ => DataType::Int,
        "gobol_alloc"@ => DataType::Int,
        "gobol_array_new"@ => DataType::Unknown,
        "gobol_array_new_with_size"@ => DataType::Unknown,
        "gobol_array_new_2d"@ => DataType::Unknown,
        "gobol_array_add"@ => DataType::None_,
        "gobol_array_len"@ => DataType::Int,
        "gobol_array_get"@ => DataType::Int,
        "gobol_array_set"@ => DataType::None_,
        "gobol_mem_load"@ => DataType::Int,
        "gobol_mem_store"@ => DataType::None_,
        "gobol_array_elem_addr"@ => DataType::Int,
        "gobol_gc_alloc"@ => DataType::Int,
        "gobol_gc_mark"@ => DataType::None_,
        "gobol_gc_sweep"@ => DataType::None_,
        "gobol_gc_collect"@ => DataType::None_,
        "gobol_gc_collect_now"@ => DataType::None_,
        "gobol_gc_alloc_count"@ => DataType::Int,
        "gobol_malloc"@ => DataType::Int,
        "gobol_free"@ => DataType::None_,
    ]
}

/// Bytes a value of a type takes in memory: every value sits in an 8-byte
/// slot, except `none`, which takes none; a nullable type takes what its
/// inner type takes.
pub open spec fn type_size_spec(t: DataType) -> int
    decreases t,
{
    match t {
        DataType::None_ => 0,
        DataType::Nullable(inner) => type_size_spec(*inner),
        _ => 8,
    }
}

proof fn lemma_type_size(t: DataType)
    ensures
        0 <= type_size_spec(t) <= 8,
    decreases t,
{
    if let DataType::Nullable(inner) = t {
        lemma_type_size(*inner);
    }
}

/// Total size of a list of fields.
pub open spec fn fields_size(fs: Seq<IRField>) -> int
    decreases fs.len(),
{
    if fs.len() == 0 {
        0
    } else {
        fields_size(fs.drop_last()) + type_size_spec(fs.last().ty)
    }
}

proof fn lemma_fields_size(fs: Seq<IRField>)
    ensures
        0 <= fields_size(fs) <= 8 * fs.len(),
    decreases fs.len(),
{
    if fs.len() > 0 {
        lemma_fields_size(fs.drop_last());
        lemma_type_size(fs.last().ty);
    }
}

proof fn lemma_fields_size_prefix(fs: Seq<IRField>, i: int, j: int)
    requires
        0 <= i <= j <= fs.len(),
    ensures
        fields_size(fs.take(i)) <= fields_size(fs.take(j)),
    decreases j - i,
{
    if i < j {
        lemma_fields_size_prefix(fs, i, j - 1);
        assert(fs.take(j).drop_last() =~= fs.take(j - 1));
        lemma_type_size(fs.take(j).last().ty);
    }
}

proof fn lemma_first_field_distinct(fs: Seq<IRField>, k: int)
    requires
        0 <= k < fs.len(),
        forall|a: int, b: int| 0 <= a < b < fs.len() ==> fs[a].name@ != fs[b].name@,
    ensures
        first_field(fs, fs[k].name@) == k,
    decreases fs.len(),
{
    if k < fs.len() - 1 {
        lemma_first_field_distinct(fs.drop_last(), k);
    } else {
        lemma_first_field_absent(fs.drop_last(), fs[k].name@);
    }
}

proof fn lemma_first_field_absent(fs: Seq<IRField>, name: Seq<char>)
    requires
        forall|a: int| 0 <= a < fs.len() ==> fs[a].name@ != name,
    ensures
        first_field(fs, name) == -1,
    decreases fs.len(),
{
    if fs.len() > 0 {
        lemma_first_field_absent(fs.drop_last(), name);
    }
}

/// The layout of a struct whose fields have distinct names: the first field
/// lies at offset 0, offsets grow with the field's position, and the size
/// is the offset of the last field plus that field's size.
pub proof fn lemma_struct_layout(fs: Seq<IRField>)
    requires
        fs.len() >= 1,
        forall|a: int, b: int| 0 <= a < b < fs.len() ==> fs[a].name@ != fs[b].name@,
    ensures
        fields_size(fs.take(first_field(fs, fs[0].name@))) == 0,
        fields_size(fs.take(first_field(fs, fs.last().name@))) + type_size_spec(fs.last().ty) == fields_size(fs),
        forall|a: int, b: int|
            0 <= a <= b < fs.len() ==> fields_size(fs.take(first_field(fs, #[trigger] fs[a].name@))) <= fields_size(
                fs.take(first_field(fs, #[trigger] fs[b].name@)),
            ),
{
    lemma_first_field_distinct(fs, 0);
    lemma_first_field_distinct(fs, fs.len() - 1);
    assert(fs.take(0) =~= Seq::<IRField>::empty());
    assert(fs.take(fs.len() - 1) =~= fs.drop_last());
    assert forall|a: int, b: int|
        0 <= a <= b < fs.len() implies fields_size(fs.take(first_field(fs, #[trigger] fs[a].name@))) <= fields_size(
            fs.take(first_field(fs, #[trigger] fs[b].name@)),
        ) by {
        lemma_first_field_distinct(fs, a);
        lemma_first_field_distinct(fs, b);
        lemma_fields_size_prefix(fs, a, b);
    }
}

/// Index of the first field named `name`, or -1.
pub open spec fn first_field(fs: Seq<IRField>, name: Seq<char>) -> int
    decreases fs.len(),
{
    if fs.len() == 0 {
        -1
    } else if first_field(fs.drop_last(), name) >= 0 {
        first_field(fs.drop_last(), name)
    } else if fs.last().name@ == name {
        fs.len() - 1
    } else {
        -1
    }
}

proof fn lemma_first_field(fs: Seq<IRField>, name: Seq<char>)
    ensures
        -1 <= first_field(fs, name) < fs.len(),
        first_field(fs, name) >= 0 ==> fs[first_field(fs, name)].name@ == name,
        forall|i: int| 0 <= i < fs.len() && (first_field(fs, name) < 0 || i < first_field(fs, name)) ==> #[trigger] fs[i].name@ != name,
    decreases fs.len(),
{
    if fs.len() > 0 {
        let init = fs.drop_last();
        lemma_first_field(init, name);
        let fi = first_field(init, name);
        let ff = first_field(fs, name);
        assert(fi >= 0 ==> ff == fi);
        assert forall|i: int| 0 <= i < fs.len() && (ff < 0 || i < ff) implies #[trigger] fs[i].name@ != name by {
            if i < fs.len() - 1 {
                assert(fs[i] == init[i]);
                assert(fi < 0 || i < fi);
                assert(init[i].name@ != name);
            } else {
                assert(fi < 0);
                assert(fs.last() == fs[i]);
            }
        }
    }
}

/// Whether the attribute list holds `name`.
pub open spec fn has_attribute(attrs: Seq<String>, name: Seq<char>) -> bool {
    exists|i: int| 0 <= i < attrs.len() && attrs[i]@ == name
}

fn has_attribute_exec(attrs: &Vec<String>, name: &str) -> (r: bool)
    ensures
        r == has_attribute(attrs@, name@),
{
    let mut i: usize = 0;
    while i < attrs.len()
        invariant
            i <= attrs@.len(),
            forall|k: int| 0 <= k < i ==> attrs@[k]@ != name@,
        decreases attrs@.len() - i,
    {
        if str_eq(attrs[i].as_str(), name) {
            return true;
        }
        i = i + 1;
    }
    false
}

/// Index of the last struct named `name`, or -1.
pub open spec fn last_struct_named(ss: Seq<IRStruct>, name: Seq<char>) -> int
    decreases ss.len(),
{
    if ss.len() == 0 {
        -1
    } else if ss.last().name@ == name {
        ss.len() - 1
    } else {
        last_struct_named(ss.drop_last(), name)
    }
}

/// The result type of an arithmetic or comparison method on `int` or
/// `float` (the operator traits of the built-in numeric types).
pub open spec fn intrinsic_return(method: Seq<char>, obj: DataType) -> Option<DataType> {
    if !(obj is Int || obj is Float) {
        None
    } else if method == "add"@ || method == "sub"@ || method == "mul"@ || method == "div"@ || method
        == "rem"@ {
        Some(obj)
    } else if method == "eq"@ || method == "ne"@ || method == "lt"@ || method == "gt"@ || method
        == "le"@ || method == "ge"@ {
        Some(DataType::Bool)
    } else {
        None
    }
}

/// The result type of a built-in method on an array (of unknown element
/// type) or a string.
pub open spec fn builtin_return(method: Seq<char>, obj: DataType) -> Option<DataType> {
    if obj is Unknown {
        if method == "len"@ || method == "get"@ {
            Some(DataType::Int)
        } else if method == "add"@ {
            Some(DataType::None_)
        } else {
            None
        }
    } else if obj is Str {
        if method == "len"@ || method == "get"@ {
            Some(DataType::Int)
        } else if method == "contains"@ {
            Some(DataType::Bool)
        } else if method == "trim"@ || method == "replace"@ {
            Some(DataType::Str)
        } else {
            None
        }
    } else {
        None
    }
}

/// Whether the UTF-8 text `hay` contains `needle`.
pub open spec fn text_contains(hay: Seq<char>, needle: Seq<char>) -> bool {
    bytes_contain(encode_utf8(hay), encode_utf8(needle))
}

/// Centralised type inference, struct layout and return-type lookup for the
/// back end.
pub struct TypeResolver {
    structs: Table<IRStruct>,
    no_gc_structs: Table<()>,
    func_return_types: Table<DataType>,
    var_types: Table<DataType>,
}

impl TypeResolver {
    /// The registered structs, by name.
    pub closed spec fn structs_map(&self) -> Map<Seq<char>, IRStruct> {
        self.structs@
    }

    /// The names of the structs that opt out of garbage collection.
    pub closed spec fn no_gc_set(&self) -> Set<Seq<char>> {
        self.no_gc_structs@.dom()
    }

    /// The known return types of functions, by name.
    pub closed spec fn return_types(&self) -> Map<Seq<char>, DataType> {
        self.func_return_types@
    }

    /// The types of the variables of the current function, by name.
    pub closed spec fn var_types_map(&self) -> Map<Seq<char>, DataType> {
        self.var_types@
    }

    /// A resolver that knows the return types of the runtime helpers and
    /// nothing else.
    pub fn new() -> (r: TypeResolver)
        ensures
            r.structs_map() == Map::<Seq<char>, IRStruct>::empty(),
            r.no_gc_set() == Set::<Seq<char>>::empty(),
            r.return_types() == runtime_return_types(),
            r.var_types_map() == Map::<Seq<char>, DataType>::empty(),
    {
        let mut r = TypeResolver {
            structs: Table::new(),
            no_gc_structs: Table::new(),
            func_return_types: Table::new(),
            var_types: Table::new(),
        };
        r.register_runtime_types();
        assert(r.no_gc_structs@.dom() =~= Set::<Seq<char>>::empty());
        r
    }

    /// Records the return types of the C runtime helpers.
    fn register_runtime_types(&mut self)
        requires
            old(self).func_return_types@ == Map::<Seq<char>, DataType>::empty(),
        ensures
            final(self).func_return_types@ == runtime_return_types(),
            final(self).structs@ == old(self).structs@,
            final(self).no_gc_structs@ == old(self).no_gc_structs@,
            final(self).var_types@ == old(self).var_types@,
    {
        let t = &mut self.func_return_types;
        t.insert(owned("gobol_print"), DataType::None_);
        t.insert(owned("gobol_println"), DataType::None_);
        t.insert(owned("gobol_eprint"), DataType::None_);
        t.insert(owned("gobol_eprintln"), DataType::None_);
        t.insert(owned("gobol_read"), DataType::Str);
        t.insert(owned("gobol_str_int"), DataType::Str);
        t.insert(owned("gobol_str_float"), DataType::Str);
        t.insert(owned("gobol_str_bool"), DataType::Str);
        t.insert(owned("gobol_str_cat"), DataType::Str);
        t.insert(owned("gobol_str_eq"), DataType::Bool);
        t.insert(owned("gobol_str_len"), DataType::Int);
        t.insert(owned("gobol_str_get"), DataType::Int);
        t.insert(owned("gobol_str_char"), DataType::Str);
        t.insert(owned("gobol_str_contains"), DataType::Bool);
        t.insert(owned("gobol_str_trim"), DataType::Str);
        t.insert(owned("gobol_str_replace"), DataType::Str);
        t.insert(owned("gobol_math_sin"), DataType::Float);
        t.insert(owned("gobol_math_cos"), DataType::Float);
        t.insert(owned("gobol_math_pow"), DataType::Float);
        t.insert(owned("gobol_fs_open"), DataType::Int);
        t.insert(owned("gobol_fs_read_all"), DataType::Str);
        t.insert(owned("gobol_fs_write"), DataType::Int);
        t.insert(owned("gobol_fs_close"), DataType::None_);
        t.insert(owned("gobol_fs_exists"), DataType::Bool);
        t.insert(owned("gobol_tcp_connect"), DataType::Int);
        t.insert(owned("gobol_tcp_send"), DataType::Int);
        t.insert(owned("gobol_tcp_recv"), DataType::Str);
        t.insert(owned("gobol_tcp_close"), DataType::None_);
        t.insert(owned("gobol_tcp_bind"), DataType::Int);
        t.insert(owned("gobol_tcp_accept"), DataType::Int);
        t.insert(owned("gobol_alloc"), DataType::Int);
        t.insert(owned("gobol_array_new"), DataType::Unknown);
        t.insert(owned("gobol_array_new_with_size"), DataType::Unknown);
        t.insert(owned("gobol_array_new_2d"), DataType::Unknown);
        t.insert(owned("gobol_array_add"), DataType::None_);
        t.insert(owned("gobol_array_len"), DataType::Int);
        t.insert(owned("gobol_array_get"), DataType::Int);
        t.insert(owned("gobol_array_set"), DataType::None_);
        t.insert(owned("gobol_mem_load"), DataType::Int);
        t.insert(owned("gobol_mem_store"), DataType::None_);
        t.insert(owned("gobol_array_elem_addr"), DataType::Int);
        t.insert(owned("gobol_gc_alloc"), DataType::Int);
        t.insert(owned("gobol_gc_mark"), DataType::None_);
        t.insert(owned("gobol_gc_sweep"), DataType::None_);
        t.insert(owned("gobol_gc_collect"), DataType::None_);
        t.insert(owned("gobol_gc_collect_now"), DataType::None_);
        t.insert(owned("gobol_gc_alloc_count"), DataType::Int);
        t.insert(owned("gobol_malloc"), DataType::Int);
        t.insert(owned("gobol_free"), DataType::None_);
    }

    /// Registers struct definitions, in order (a later definition of a name
    /// replaces an earlier one); those with the `no_gc` attribute are
    /// recorded as opting out of garbage collection.
    pub fn register_structs(&mut self, structs: &[IRStruct])
        ensures
            final(self).no_gc_set() == old(self).no_gc_set().union(
                Set::new(|k: Seq<char>| exists|i: int| 0 <= i < structs@.len() && structs@[i].name@ == k
                    && has_attribute(structs@[i].attributes@, "no_gc"@)),
            ),
            forall|k: Seq<char>| #[trigger] final(self).structs_map().contains_key(k) <==> (old(self).structs_map().contains_key(k)
                || last_struct_named(structs@, k) >= 0),
            forall|k: Seq<char>| last_struct_named(structs@, k) >= 0 ==> same_struct(
                #[trigger] final(self).structs_map()[k],
                structs@[last_struct_named(structs@, k)],
            ),
            forall|k: Seq<char>| last_struct_named(structs@, k) < 0 ==> #[trigger] final(self).structs_map()[k] == old(self).structs_map()[k],
            final(self).return_types() == old(self).return_types(),
            final(self).var_types_map() == old(self).var_types_map(),
    {
        let ghost ss = structs@;
        let mut i: usize = 0;
        while i < structs.len()
            invariant
                i <= ss.len(),
                ss == structs@,
                self.no_gc_structs@.dom() == old(self).no_gc_structs@.dom().union(
                    Set::new(|k: Seq<char>| exists|j: int| 0 <= j < i && ss[j].name@ == k
                        && has_attribute(ss[j].attributes@, "no_gc"@)),
                ),
                forall|k: Seq<char>| #[trigger] self.structs@.contains_key(k) <==> (old(self).structs@.contains_key(k)
                    || last_struct_named(ss.take(i as int), k) >= 0),
                forall|k: Seq<char>| last_struct_named(ss.take(i as int), k) >= 0 ==> same_struct(
                    #[trigger] self.structs@[k],
                    ss[last_struct_named(ss.take(i as int), k)],
                ),
                forall|k: Seq<char>| last_struct_named(ss.take(i as int), k) < 0 ==> #[trigger] self.structs@[k] == old(self).structs@[k],
                self.func_return_types@ == old(self).func_return_types@,
                self.var_types@ == old(self).var_types@,
            decreases ss.len() - i,
        {
            let s = &structs[i];
            let ghost before_gc = self.no_gc_structs@.dom();
            if has_attribute_exec(&s.attributes, "no_gc") {
                self.no_gc_structs.insert(s.name.clone(), ());
            }
            self.structs.insert(s.name.clone(), s.clone());
            i = i + 1;
            proof {
                let pre = ss.take(i - 1);
                let cur = ss.take(i as int);
                assert(cur.drop_last() =~= pre);
                assert(self.no_gc_structs@.dom() =~= old(self).no_gc_structs@.dom().union(
                    Set::new(|k: Seq<char>| exists|j: int| 0 <= j < i && ss[j].name@ == k
                        && has_attribute(ss[j].attributes@, "no_gc"@)),
                )) by {
                    assert forall|k: Seq<char>| (exists|j: int| 0 <= j < i && ss[j].name@ == k
                        && has_attribute(ss[j].attributes@, "no_gc"@)) implies self.no_gc_structs@.dom().contains(k) by {
                        let j = choose|j: int| 0 <= j < i && ss[j].name@ == k && has_attribute(ss[j].attributes@, "no_gc"@);
                        if j < i - 1 {
                            assert(before_gc.contains(k));
                        }
                    }
                }
            }
        }
        assert(ss.take(i as int) =~= ss);
    }

    /// Records the return type of a function.
    pub fn register_function(&mut self, name: &str, return_type: DataType)
        ensures
            final(self).return_types() == old(self).return_types().insert(name@, return_type),
            final(self).structs_map() == old(self).structs_map(),
            final(self).no_gc_set() == old(self).no_gc_set(),
            final(self).var_types_map() == old(self).var_types_map(),
    {
        self.func_return_types.insert(owned(name), return_type);
    }

    /// Records the type of a variable of the current function.
    pub fn declare_var(&mut self, name: &str, ty: DataType)
        ensures
            final(self).var_types_map() == old(self).var_types_map().insert(name@, ty),
            final(self).structs_map() == old(self).structs_map(),
            final(self).no_gc_set() == old(self).no_gc_set(),
            final(self).return_types() == old(self).return_types(),
    {
        self.var_types.insert(owned(name), ty);
    }

    /// Forgets the variables of the current function.
    pub fn reset_vars(&mut self)
        ensures
            final(self).var_types_map() == Map::<Seq<char>, DataType>::empty(),
            final(self).structs_map() == old(self).structs_map(),
            final(self).no_gc_set() == old(self).no_gc_set(),
            final(self).return_types() == old(self).return_types(),
    {
        self.var_types.clear();
    }

    /// The type of a variable, `int` for a variable it does not know.
    pub open spec fn var_type_spec(&self, name: Seq<char>) -> DataType {
        if self.var_types_map().contains_key(name) {
            self.var_types_map()[name]
        } else {
            DataType::Int
        }
    }

    /// The type of a variable, `int` for a variable it does not know.
    pub fn var_type(&self, name: &str) -> (t: DataType)
        ensures
            t == self.var_type_spec(name@),
    {
        match self.var_types.get(name) {
            Some(t) => t.clone(),
            None => DataType::Int,
        }
    }

    /// Whether a struct of that name is registered.
    pub fn has_struct(&self, name: &str) -> (r: bool)
        ensures
            r == self.structs_map().contains_key(name@),
    {
        self.structs.contains_key(name)
    }

    /// Whether the struct of that name opts out of garbage collection.
    pub fn is_no_gc(&self, name: &str) -> (r: bool)
        ensures
            r == self.no_gc_set().contains(name@),
    {
        self.no_gc_structs.contains_key(name)
    }

    /// Bytes a value of type `ty` takes in memory.
    pub fn type_size(&self, ty: &DataType) -> (n: i64)
        ensures
            n == type_size_spec(*ty),
        decreases ty,
    {
        match ty {
            DataType::None_ => 0,
            DataType::Float => 8,
            DataType::Bool => 8,
            DataType::Int | DataType::Str | DataType::Unknown | DataType::Struct(_) => 8,
            DataType::Nullable(inner) => self.type_size(&**inner),
            DataType::Array(_) => 8,
        }
    }

    /// The struct of that name has few enough fields for its layout to be
    /// measured in an `i64` (fewer than 2^59).
    pub open spec fn layout_fits(&self, name: Seq<char>) -> bool {
        self.structs_map().contains_key(name) ==> self.structs_map()[name].fields@.len() < 0x800_0000_0000_0000
    }

    /// Offset in bytes of `field` within the struct `struct_name`: the sizes
    /// of the fields before the first field of that name; `None` when the
    /// struct or the field is unknown.
    pub fn field_offset(&self, struct_name: &str, field: &str) -> (r: Option<i64>)
        requires
            self.layout_fits(struct_name@),
        ensures
            r == if !self.structs_map().contains_key(struct_name@) {
                None::<i64>
            } else {
                let fs = self.structs_map()[struct_name@].fields@;
                let i = first_field(fs, field@);
                if i < 0 {
                    None::<i64>
                } else {
                    Some(fields_size(fs.take(i)) as i64)
                }
            },
    {
        let s = match self.structs.get(struct_name) {
            Some(s) => s,
            None => return None,
        };
        let ghost fs = s.fields@;
        proof {
            lemma_first_field(fs, field@);
        }
        let mut offset: i64 = 0;
        let mut i: usize = 0;
        while i < s.fields.len()
            invariant
                fs == s.fields@,
                self.structs_map().contains_key(struct_name@),
                self.structs_map()[struct_name@] == *s,
                fs.len() < 0x800_0000_0000_0000,
                i <= fs.len(),
                offset == fields_size(fs.take(i as int)),
                forall|k: int| 0 <= k < i ==> fs[k].name@ != field@,
                -1 <= first_field(fs, field@) < fs.len(),
                first_field(fs, field@) >= 0 ==> fs[first_field(fs, field@)].name@ == field@,
                forall|k: int| 0 <= k < fs.len() && (first_field(fs, field@) < 0 || k < first_field(fs, field@)) ==> #[trigger] fs[k].name@ != field@,
            decreases fs.len() - i,
        {
            let f = &s.fields[i];
            if str_eq(f.name.as_str(), field) {
                proof {
                    assert(fs[i as int].name@ == field@);
                    let ff = first_field(fs, field@);
                    if ff >= 0 && ff < i {
                        assert(fs[ff].name@ != field@);
                    }
                    assert(ff == i);
                }
                return Some(offset);
            }
            proof {
                lemma_fields_size(fs.take(i as int));
                lemma_type_size(fs[i as int].ty);
                assert(fs.take(i + 1).drop_last() =~= fs.take(i as int));
            }
            offset = offset + self.type_size(&f.ty);
            i = i + 1;
        }
        None
    }

    /// The type of `field` in struct `struct_name`: that of its first field
    /// of that name, `int` when the struct or field is unknown.
    pub fn field_type(&self, struct_name: &str, field: &str) -> (t: DataType)
        ensures
            t == if !self.structs_map().contains_key(struct_name@) {
                DataType::Int
            } else {
                let fs = self.structs_map()[struct_name@].fields@;
                let i = first_field(fs, field@);
                if i < 0 {
                    DataType::Int
                } else {
                    fs[i].ty
                }
            },
    {
        let s = match self.structs.get(struct_name) {
            Some(s) => s,
            None => return DataType::Int,
        };
        let ghost fs = s.fields@;
        proof {
            lemma_first_field(fs, field@);
        }
        let mut i: usize = 0;
        while i < s.fields.len()
            invariant
                fs == s.fields@,
                self.structs_map().contains_key(struct_name@),
                self.structs_map()[struct_name@] == *s,
                i <= fs.len(),
                forall|k: int| 0 <= k < i ==> fs[k].name@ != field@,
                -1 <= first_field(fs, field@) < fs.len(),
                first_field(fs, field@) >= 0 ==> fs[first_field(fs, field@)].name@ == field@,
                forall|k: int| 0 <= k < fs.len() && (first_field(fs, field@) < 0 || k < first_field(fs, field@)) ==> #[trigger] fs[k].name@ != field@,
            decreases fs.len() - i,
        {
            if str_eq(s.fields[i].name.as_str(), field) {
                proof {
                    assert(fs[i as int].name@ == field@);
                    let ff = first_field(fs, field@);
                    if ff >= 0 && ff < i {
                        assert(fs[ff].name@ != field@);
                    }
                    assert(ff == i);
                }
                return s.fields[i].ty.clone();
            }
            i = i + 1;
        }
        DataType::Int
    }

    /// Total size in bytes of the struct `struct_name`, 0 when unknown.
    pub fn struct_size(&self, struct_name: &str) -> (n: i64)
        requires
            self.layout_fits(struct_name@),
        ensures
            n == if self.structs_map().contains_key(struct_name@) {
                fields_size(self.structs_map()[struct_name@].fields@)
            } else {
                0
            },
            ({
                let fs = self.structs_map()[struct_name@].fields@;
                self.structs_map().contains_key(struct_name@) && fs.len() >= 1 && (forall|a: int, b: int|
                    0 <= a < b < fs.len() ==> fs[a].name@ != fs[b].name@) ==> n == fields_size(
                    fs.take(first_field(fs, fs.last().name@)),
                ) + type_size_spec(fs.last().ty)
            }),
    {
        proof {
            if self.structs_map().contains_key(struct_name@) {
                let fs = self.structs_map()[struct_name@].fields@;
                if fs.len() >= 1 && (forall|a: int, b: int| 0 <= a < b < fs.len() ==> fs[a].name@ != fs[b].name@) {
                    lemma_struct_layout(fs);
                }
            }
        }
        let s = match self.structs.get(struct_name) {
            Some(s) => s,
            None => return 0,
        };
        let ghost fs = s.fields@;
        let mut total: i64 = 0;
        let mut i: usize = 0;
        while i < s.fields.len()
            invariant
                fs == s.fields@,
                fs.len() < 0x800_0000_0000_0000,
                i <= fs.len(),
                total == fields_size(fs.take(i as int)),
            decreases fs.len() - i,
        {
            proof {
                lemma_fields_size(fs.take(i as int));
                lemma_type_size(fs[i as int].ty);
                assert(fs.take(i + 1).drop_last() =~= fs.take(i as int));
            }
            total = total + self.type_size(&s.fields[i].ty);
            i = i + 1;
        }
        assert(fs.take(i as int) =~= fs);
        total
    }

    /// The (name, type) pairs of the fields of a struct, in order.
    pub fn struct_fields(&self, struct_name: &str) -> (r: Option<Vec<(String, DataType)>>)
        ensures
            r is Some <==> self.structs_map().contains_key(struct_name@),
            r matches Some(v) ==> {
                let fs = self.structs_map()[struct_name@].fields@;
                &&& v@.len() == fs.len()
                &&& forall|i: int| 0 <= i < fs.len() ==> (#[trigger] v@[i]).0 == fs[i].name && v@[i].1 == fs[i].ty
            },
    {
        let s = match self.structs.get(struct_name) {
            Some(s) => s,
            None => return None,
        };
        let mut v: Vec<(String, DataType)> = Vec::new();
        let mut i: usize = 0;
        while i < s.fields.len()
            invariant
                i <= s.fields@.len(),
                v@.len() == i,
                forall|k: int| 0 <= k < i ==> (#[trigger] v@[k]).0 == s.fields@[k].name && v@[k].1 == s.fields@[k].ty,
            decreases s.fields@.len() - i,
        {
            v.push((s.fields[i].name.clone(), s.fields[i].ty.clone()));
            i = i + 1;
        }
        Some(v)
    }

    /// The return type of the function named `name`: its own, else that of
    /// the name after its last `::`, else `int`.
    pub open spec fn func_return_type_spec(&self, name: Seq<char>) -> DataType {
        let short = decode_utf8(last_path_segment(encode_utf8(name)));
        if self.return_types().contains_key(name) {
            self.return_types()[name]
        } else if self.return_types().contains_key(short) {
            self.return_types()[short]
        } else {
            DataType::Int
        }
    }

    /// The return type of the function named `name`, trying the name after
    /// its last `::` for a cross-module call, and `int` when unknown.
    pub fn func_return_type(&self, name: &str) -> (t: DataType)
        ensures
            t == self.func_return_type_spec(name@),
    {
        if let Some(dt) = self.func_return_types.get(name) {
            return dt.clone();
        }
        let short = last_segment(name);
        if let Some(dt) = self.func_return_types.get(short) {
            return dt.clone();
        }
        DataType::Int
    }

    /// The result type of an arithmetic or comparison method on a numeric type.
    fn intrinsic_method_return_type(&self, method: &str, obj_ty: &DataType) -> (r: Option<DataType>)
        ensures
            r == intrinsic_return(method@, *obj_ty),
    {
        let is_int = match obj_ty {
            DataType::Int => true,
            _ => false,
        };
        let is_float = match obj_ty {
            DataType::Float => true,
            _ => false,
        };
        if !is_int && !is_float {
            return None;
        }
        if str_eq(method, "add") || str_eq(method, "sub") || str_eq(method, "mul") || str_eq(method, "div")
            || str_eq(method, "rem") {
            return Some(obj_ty.clone());
        }
        if str_eq(method, "eq") || str_eq(method, "ne") || str_eq(method, "lt") || str_eq(method, "gt")
            || str_eq(method, "le") || str_eq(method, "ge") {
            return Some(DataType::Bool);
        }
        None
    }

    /// The result type of a built-in array or string method.
    fn builtin_method_return_type(&self, method: &str, obj_ty: &DataType) -> (r: Option<DataType>)
        ensures
            r == builtin_return(method@, *obj_ty),
    {
        match obj_ty {
            DataType::Unknown => {
                if str_eq(method, "len") || str_eq(method, "get") {
                    Some(DataType::Int)
                } else if str_eq(method, "add") {
                    Some(DataType::None_)
                } else {
                    None
                }
            },
            DataType::Str => {
                if str_eq(method, "len") || str_eq(method, "get") {
                    Some(DataType::Int)
                } else if str_eq(method, "contains") {
                    Some(DataType::Bool)
                } else if str_eq(method, "trim") || str_eq(method, "replace") {
                    Some(DataType::Str)
                } else {
                    None
                }
            },
            _ => None,
        }
    }

    /// Whether an expression evidently produces a string: a string literal,
    /// a variable known to be a string, a cast to `str`, a method whose name
    /// contains `str`, a call of a function returning `str` or whose name
    /// contains `str`, or a binary expression with such an operand.
    pub open spec fn contains_str_spec(&self, e: IRExpr) -> bool
        decreases e,
    {
        match e {
            IRExpr::Literal(LitValue::Str(_)) => true,
            IRExpr::Variable(name) => self.var_types_map().contains_key(name@) && self.var_types_map()[name@] == DataType::Str,
            IRExpr::Cast { target, .. } => target is Str,
            IRExpr::MethodCall { method, .. } => text_contains(method@, "str"@),
            IRExpr::Call { func, .. } => (self.return_types().contains_key(func@) && self.return_types()[func@] == DataType::Str)
                || text_contains(func@, "str"@),
            IRExpr::Binary { left, right, .. } => self.contains_str_spec(*left) || self.contains_str_spec(*right),
            _ => false,
        }
    }

    /// Whether an expression evidently produces a string (see
    /// `contains_str_spec`).
    pub fn contains_str(&self, e: &IRExpr) -> (r: bool)
        ensures
            r == self.contains_str_spec(*e),
        decreases e,
    {
        match e {
            IRExpr::Literal(LitValue::Str(_)) => true,
            IRExpr::Variable(name) => match self.var_types.get(name.as_str()) {
                Some(t) => match t {
                    DataType::Str => true,
                    _ => false,
                },
                None => false,
            },
            IRExpr::Cast { target, .. } => match target {
                DataType::Str => true,
                _ => false,
            },
            IRExpr::MethodCall { method, .. } => str_contains(method.as_str(), "str"),
            IRExpr::Call { func, .. } => {
                let returns_str = match self.func_return_types.get(func.as_str()) {
                    Some(t) => match t {
                        DataType::Str => true,
                        _ => false,
                    },
                    None => false,
                };
                returns_str || str_contains(func.as_str(), "str")
            },
            IRExpr::Binary { left, right, .. } => self.contains_str(&**left) || self.contains_str(&**right),
            _ => false,
        }
    }

    /// The type of an expression.
    pub open spec fn infer_spec(&self, e: IRExpr) -> DataType
        decreases e,
    {
        match e {
            IRExpr::Literal(LitValue::Int(_)) => DataType::Int,
            IRExpr::Literal(LitValue::Float(_)) => DataType::Float,
            IRExpr::Literal(LitValue::Bool(_)) => DataType::Bool,
            IRExpr::Literal(LitValue::Str(_)) => DataType::Str,
            IRExpr::Literal(LitValue::Null) => DataType::None_,
            IRExpr::Variable(name) => self.var_type_spec(name@),
            IRExpr::StructLiteral { name, .. } => DataType::Struct(name),
            IRExpr::ArrayLiteral(_) => DataType::Unknown,
            IRExpr::MethodCall { object, method, .. } => {
                let obj_ty = self.infer_spec(*object);
                if method@ == "new"@ && (*object matches IRExpr::Variable(n) && self.structs_map().contains_key(n@)) {
                    DataType::Struct(object->Variable_0)
                } else if intrinsic_return(method@, obj_ty) is Some {
                    intrinsic_return(method@, obj_ty).unwrap()
                } else if builtin_return(method@, obj_ty) is Some {
                    builtin_return(method@, obj_ty).unwrap()
                } else if obj_ty matches DataType::Struct(sname) && self.return_types().contains_key(
                    sname@ + "::"@ + method@,
                ) {
                    self.func_return_type_spec(obj_ty->Struct_0@ + "::"@ + method@)
                } else if *object matches IRExpr::Variable(n) && self.return_types().contains_key(
                    n@ + "::"@ + method@,
                ) {
                    self.func_return_type_spec(object->Variable_0@ + "::"@ + method@)
                } else {
                    DataType::Int
                }
            },
            IRExpr::Call { func, .. } => self.func_return_type_spec(func@),
            IRExpr::Binary { op, left, right } => {
                if op@ == "+"@ && (self.contains_str_spec(*left) || self.contains_str_spec(*right)) {
                    DataType::Str
                } else if op@ == "=="@ || op@ == "!="@ || op@ == "<"@ || op@ == ">"@ || op@ == "<="@
                    || op@ == ">="@ || op@ == "&&"@ || op@ == "||"@ {
                    DataType::Bool
                } else if self.infer_spec(*left) is Float || self.infer_spec(*right) is Float {
                    DataType::Float
                } else {
                    self.infer_spec(*left)
                }
            },
            IRExpr::Unary { op, operand } => {
                if op@ == "!"@ {
                    DataType::Bool
                } else {
                    self.infer_spec(*operand)
                }
            },
            IRExpr::Cast { target, .. } => target,
            IRExpr::MemberAccess { object, member } => {
                match self.infer_spec(*object) {
                    DataType::Struct(sname) => {
                        if !self.structs_map().contains_key(sname@) {
                            DataType::Int
                        } else {
                            let fs = self.structs_map()[sname@].fields@;
                            let i = first_field(fs, member@);
                            if i < 0 {
                                DataType::Int
                            } else {
                                fs[i].ty
                            }
                        }
                    },
                    _ => DataType::Int,
                }
            },
            IRExpr::ArrayIndex { .. } => DataType::Int,
            IRExpr::Assignment { target, .. } => self.infer_spec(*target),
            IRExpr::FuncRef(name) => self.func_return_type_spec(name@),
            IRExpr::IndirectCall { .. } => DataType::Int,
            IRExpr::Empty => DataType::None_,
        }
    }

    /// Arithmetic involving a float is a float, whichever side the float
    /// stands on: for an operator that is neither a comparison nor a
    /// logical one, applied to operands that are not text under `+`, the
    /// type is `float` exactly when one operand's type is; two `int`
    /// operands give `int`; and swapping the operands does not change the
    /// type.
    pub proof fn lemma_arithmetic_type(&self, op: String, l: IRExpr, r: IRExpr)
        requires
            !(op@ == "=="@ || op@ == "!="@ || op@ == "<"@ || op@ == ">"@ || op@ == "<="@ || op@ == ">="@ || op@ == "&&"@
                || op@ == "||"@),
            !(op@ == "+"@ && (self.contains_str_spec(l) || self.contains_str_spec(r))),
        ensures
            (self.infer_spec(l) is Float || self.infer_spec(r) is Float) ==> self.infer_spec(
                IRExpr::Binary { op: op, left: Box::new(l), right: Box::new(r) },
            ) == DataType::Float,
            self.infer_spec(l) == DataType::Int && self.infer_spec(r) == DataType::Int ==> self.infer_spec(
                IRExpr::Binary { op: op, left: Box::new(l), right: Box::new(r) },
            ) == DataType::Int,
            (self.infer_spec(l) == DataType::Int || self.infer_spec(l) is Float) && (self.infer_spec(r) == DataType::Int
                || self.infer_spec(r) is Float) ==> self.infer_spec(IRExpr::Binary { op: op, left: Box::new(l), right: Box::new(r) })
                == self.infer_spec(IRExpr::Binary { op: op, left: Box::new(r), right: Box::new(l) }),
    {
    }

    /// The type of an expression (see `infer_spec`).
    pub fn infer_type(&self, e: &IRExpr) -> (t: DataType)
        ensures
            t == self.infer_spec(*e),
        decreases e,
    {
        match e {
            IRExpr::Literal(LitValue::Int(_)) => DataType::Int,
            IRExpr::Literal(LitValue::Float(_)) => DataType::Float,
            IRExpr::Literal(LitValue::Bool(_)) => DataType::Bool,
            IRExpr::Literal(LitValue::Str(_)) => DataType::Str,
            IRExpr::Literal(LitValue::Null) => DataType::None_,
            IRExpr::Variable(name) => self.var_type(name.as_str()),
            IRExpr::StructLiteral { name, .. } => DataType::Struct(name.clone()),
            IRExpr::ArrayLiteral(_) => DataType::Unknown,
            IRExpr::MethodCall { object, method, .. } => {
                let obj_ty = self.infer_type(&**object);
                if str_eq(method.as_str(), "new") {
                    if let IRExpr::Variable(name) = &**object {
                        if self.has_struct(name.as_str()) {
                            return DataType::Struct(name.clone());
                        }
                    }
                }
                if let Some(rt) = self.intrinsic_method_return_type(method.as_str(), &obj_ty) {
                    return rt;
                }
                if let Some(rt) = self.builtin_method_return_type(method.as_str(), &obj_ty) {
                    return rt;
                }
                if let DataType::Struct(sname) = &obj_ty {
                    let mut full = sname.clone();
                    full.append("::");
                    full.append(method.as_str());
                    if self.func_return_types.contains_key(full.as_str()) {
                        return self.func_return_type(full.as_str());
                    }
                }
                if let IRExpr::Variable(name) = &**object {
                    let mut full = name.clone();
                    full.append("::");
                    full.append(method.as_str());
                    if self.func_return_types.contains_key(full.as_str()) {
                        return self.func_return_type(full.as_str());
                    }
                }
                DataType::Int
            },
            IRExpr::Call { func, .. } => self.func_return_type(func.as_str()),
            IRExpr::Binary { op, left, right } => {
                if str_eq(op.as_str(), "+") && (self.contains_str(&**left) || self.contains_str(&**right)) {
                    return DataType::Str;
                }
                if str_eq(op.as_str(), "==") || str_eq(op.as_str(), "!=") || str_eq(op.as_str(), "<")
                    || str_eq(op.as_str(), ">") || str_eq(op.as_str(), "<=") || str_eq(op.as_str(), ">=")
                    || str_eq(op.as_str(), "&&") || str_eq(op.as_str(), "||") {
                    return DataType::Bool;
                }
                let lt = self.infer_type(&**left);
                let rt = self.infer_type(&**right);
                let lf = match lt {
                    DataType::Float => true,
                    _ => false,
                };
                let rf = match rt {
                    DataType::Float => true,
                    _ => false,
                };
                if lf || rf {
                    return DataType::Float;
                }
                lt
            },
            IRExpr::Unary { op, operand } => {
                if str_eq(op.as_str(), "!") {
                    return DataType::Bool;
                }
                self.infer_type(&**operand)
            },
            IRExpr::Cast { target, .. } => target.clone(),
            IRExpr::MemberAccess { object, member } => {
                if let DataType::Struct(sname) = self.infer_type(&**object) {
                    return self.field_type(sname.as_str(), member.as_str());
                }
                DataType::Int
            },
            IRExpr::ArrayIndex { .. } => DataType::Int,
            IRExpr::Assignment { target, .. } => self.infer_type(&**target),
            IRExpr::FuncRef(name) => self.func_return_type(name.as_str()),
            IRExpr::IndirectCall { .. } => DataType::Int,
            IRExpr::Empty => DataType::None_,
        }
    }
}

} // verus!

verus! {

// ==================== variadic stubs ====================

/// The C type a value of a Gobol type is passed as in a variadic stub.
pub open spec fn c_type_text(t: DataType) -> Seq<char> {
    match t {
        DataType::Float => "double"@,
        DataType::Bool => "int"@,
        DataType::None_ => "void"@,
        _ => "long"@,
    }
}

/// The parameter declarations of a stub: `<type> a<i>` for each type.
pub open spec fn stub_params(types: Seq<DataType>) -> Seq<Seq<char>> {
    Seq::new(types.len(), |i: int| c_type_text(types[i]) + " a"@ + nat_digits(i as nat))
}

/// The arguments a stub forwards: `a<i>`, cast to `const char*` for strings.
pub open spec fn stub_args(types: Seq<DataType>, arity: nat) -> Seq<Seq<char>> {
    Seq::new(
        arity,
        |i: int|
            if types[i] is Str {
                "(const char*)a"@ + nat_digits(i as nat)
            } else {
                "a"@ + nat_digits(i as nat)
            },
    )
}

/// A C wrapper needed for a call of a variadic `extern "C"` function with a
/// given number of arguments: it has a fixed signature and forwards to the
/// real function.
pub struct VariadicStub {
    /// The `extern "C"` function, e.g. `printf`.
    pub func_name: String,
    /// The number of arguments at the call site.
    pub arity: usize,
    /// The type of each argument.
    pub param_types: Vec<DataType>,
    /// The return type.
    pub return_type: DataType,
}

impl VariadicStub {
    /// The stub's symbol: `__gobol_va_<name>_<arity>`, with `::` and `.` in
    /// the name replaced by `_`.
    pub open spec fn symbol_spec(&self) -> Seq<char> {
        "__gobol_va_"@ + replace_seq(replace_seq(self.func_name@, "::"@, "_"@), "."@, "_"@) + "_"@
            + nat_digits(self.arity as nat)
    }

    /// The C source of the stub.
    pub open spec fn c_source_spec(&self) -> Seq<char> {
        let params = stub_params(self.param_types@);
        let params_joined = if params.len() == 0 {
            "void"@
        } else {
            join_seq(params, ", "@)
        };
        let call = self.func_name@ + "("@ + join_seq(stub_args(self.param_types@, self.arity as nat), ", "@) + ");"@;
        let ret_stmt = if self.return_type is None_ {
            call
        } else {
            "return "@ + call
        };
        c_type_text(self.return_type) + " "@ + self.symbol_spec() + "("@ + params_joined + ") { "@ + ret_stmt
            + " }\n"@
    }

    /// The stub's symbol name.
    pub fn symbol_name(&self) -> (s: String)
        ensures
            s@ == self.symbol_spec(),
    {
        proof {
            reveal_strlit("::");
            reveal_strlit(".");
        }
        let step = replace_text(self.func_name.as_str(), "::", "_");
        let clean = replace_text(step.as_str(), ".", "_");
        let mut s = owned("__gobol_va_");
        s.append(clean.as_str());
        s.append("_");
        append_nat(&mut s, self.arity as u64);
        s
    }

    /// The C type a value of type `dt` is passed as.
    fn c_type(dt: &DataType) -> (s: &'static str)
        ensures
            s@ == c_type_text(*dt),
    {
        match dt {
            DataType::Float => "double",
            DataType::Bool => "int",
            DataType::None_ => "void",
            DataType::Int | DataType::Str | DataType::Unknown | DataType::Struct(_) | DataType::Nullable(_)
            | DataType::Array(_) => "long",
        }
    }

    /// The C source of the stub: a function with one parameter per argument
    /// type that forwards all of them to the real function and returns its
    /// result (unless it returns nothing). The arity must not exceed the
    /// number of argument types.
    pub fn c_source(&self) -> (s: String)
        requires
            self.arity <= self.param_types@.len(),
        ensures
            s@ == self.c_source_spec(),
    {
        let sym = self.symbol_name();
        let ret_c = Self::c_type(&self.return_type);
        let mut params: Vec<String> = Vec::new();
        let mut i: usize = 0;
        while i < self.param_types.len()
            invariant
                i <= self.param_types@.len(),
                params@.len() == i,
                forall|k: int| 0 <= k < i ==> (#[trigger] params@[k])@ == stub_params(self.param_types@)[k],
            decreases self.param_types@.len() - i,
        {
            let mut p = owned(Self::c_type(&self.param_types[i]));
            p.append(" a");
            append_nat(&mut p, i as u64);
            params.push(p);
            i = i + 1;
        }
        assert(params@.map_values(|s: String| s@) =~= stub_params(self.param_types@));
        let params_joined = if params.len() == 0 {
            owned("void")
        } else {
            join_strings(&params, ", ")
        };
        let mut forward: Vec<String> = Vec::new();
        let mut i: usize = 0;
        while i < self.arity
            invariant
                self.arity <= self.param_types@.len(),
                i <= self.arity,
                forward@.len() == i,
                forall|k: int| 0 <= k < i ==> (#[trigger] forward@[k])@ == stub_args(self.param_types@, self.arity as nat)[k],
            decreases self.arity - i,
        {
            let is_str = match &self.param_types[i] {
                DataType::Str => true,
                _ => false,
            };
            let mut a = if is_str {
                owned("(const char*)a")
            } else {
                owned("a")
            };
            append_nat(&mut a, i as u64);
            forward.push(a);
            i = i + 1;
        }
        assert(forward@.map_values(|s: String| s@) =~= stub_args(self.param_types@, self.arity as nat));
        let call_args = join_strings(&forward, ", ");
        let mut call = self.func_name.clone();
        call.append("(");
        call.append(call_args.as_str());
        call.append(");");
        let ret_stmt = match self.return_type {
            DataType::None_ => call,
            _ => {
                let mut r = owned("return ");
                r.append(call.as_str());
                r
            },
        };
        let mut s = owned(ret_c);
        s.append(" ");
        s.append(sym.as_str());
        s.append("(");
        s.append(params_joined.as_str());
        s.append(") { ");
        s.append(ret_stmt.as_str());
        s.append(" }\n");
        assert(s@ =~= self.c_source_spec());
        s
    }
}

} // verus!

verus! {

// ==================== link options and linker selection ====================

/// The triple names a Windows target: it contains `windows`.
pub open spec fn windows_triple(t: Seq<u8>) -> bool {
    bytes_contain(t, "windows".spec_bytes())
}

/// The triple names the MSVC ABI: it contains `windows-msvc`.
pub open spec fn msvc_triple(t: Seq<u8>) -> bool {
    bytes_contain(t, "windows-msvc".spec_bytes())
}

/// The triple names a bare-metal target: it ends in `-none` or contains
/// `unknown-none`.
pub open spec fn bare_metal_triple(t: Seq<u8>) -> bool {
    bytes_end_with(t, "-none".spec_bytes()) || bytes_contain(t, "unknown-none".spec_bytes())
}

/// Whether the triple names a Windows target.
pub fn target_is_windows(target: &str) -> (r: bool)
    ensures
        r == windows_triple(target.spec_bytes()),
{
    str_contains(target, "windows")
}

/// Whether the triple names the MSVC ABI.
pub fn target_is_msvc(target: &str) -> (r: bool)
    ensures
        r == msvc_triple(target.spec_bytes()),
{
    str_contains(target, "windows-msvc")
}

/// Whether the triple names a `no_std` / bare-metal target.
pub fn target_is_bare_metal(target: &str) -> (r: bool)
    ensures
        r == bare_metal_triple(target.spec_bytes()),
{
    str_ends_with(target, "-none") || str_contains(target, "unknown-none")
}

/// The executable's file name for a target: on Windows `.exe` is appended
/// unless the name already ends in it, compared without regard to ASCII case.
pub open spec fn exe_name(target: Seq<u8>, name: &str) -> Seq<char> {
    if !windows_triple(target) {
        name@
    } else if bytes_end_with(ascii_lower_bytes(name.spec_bytes()), ".exe".spec_bytes()) {
        name@
    } else {
        name@ + ".exe"@
    }
}

/// `name` with `.exe` appended for Windows targets when it is not already
/// there.
pub fn ensure_exe_extension(target: &str, name: &str) -> (r: String)
    ensures
        r@ == exe_name(target.spec_bytes(), name),
{
    if !target_is_windows(target) {
        return owned(name);
    }
    if lower_ends_with(name, ".exe".as_bytes()) {
        return owned(name);
    }
    let mut r = owned(name);
    r.append(".exe");
    r
}

proof fn lemma_encode_concat(a: Seq<char>, b: Seq<char>)
    ensures
        encode_utf8(a + b) == encode_utf8(a) + encode_utf8(b),
    decreases a.len(),
{
    if a.len() > 0 {
        lemma_encode_concat(a.drop_first(), b);
        assert((a + b).drop_first() =~= a.drop_first() + b);
        assert((a + b)[0] == a[0]);
        assert(encode_utf8(a + b) =~= encode_scalar(a[0] as u32) + encode_utf8(a.drop_first() + b));
    } else {
        assert(a + b =~= b);
    }
}

/// Giving an executable name its `.exe` a second time changes nothing:
/// the name already ends in it.
pub proof fn lemma_exe_extension_idempotent(target: Seq<u8>, name: &str, once: &str)
    requires
        once@ == exe_name(target, name),
    ensures
        exe_name(target, once) == once@,
{
    reveal_strlit(".exe");
    if windows_triple(target) && !bytes_end_with(ascii_lower_bytes(name.spec_bytes()), ".exe".spec_bytes()) {
        let ext = ".exe"@;
        assert(ext =~= seq!['.', 'e', 'x', 'e']);
        assert(is_ascii_chars(ext));
        is_ascii_chars_encode_utf8(ext);
        let eb = encode_utf8(ext);
        assert(eb =~= seq![46u8, 101u8, 120u8, 101u8]);
        lemma_encode_concat(name@, ext);
        let ob = once.spec_bytes();
        assert(ob == name.spec_bytes() + eb);
        let lb = ascii_lower_bytes(ob);
        assert(lb.subrange(lb.len() - 4, lb.len() as int) =~= eb);
    }
}

/// The host's target triple, such as `x86_64-unknown-linux-gnu`
/// (`target_lexicon::HOST`, formatted by its `Display`). Nothing is stated
/// of the text: `target_lexicon` fixes it for the machine it is built on.
#[verifier::external_body]
pub fn host_target_string() -> String {
    target_lexicon::HOST.to_string()
}

/// What drives the final link step: the target, the C runtime to build in,
/// extra libraries, and for bare-metal builds a link script and an entry
/// symbol.
#[derive(Clone)]
pub struct LinkOptions {
    /// The target triple, e.g. `x86_64-pc-windows-msvc`.
    pub target: String,
    /// The C runtime's master unit; `None` for targets without a runtime.
    pub runtime_c_path: Option<String>,
    /// Extra libraries to link.
    pub link_libs: Vec<String>,
    /// A custom linker script.
    pub link_script: Option<String>,
    /// A custom entry symbol.
    pub entry_point: Option<String>,
}

impl LinkOptions {
    /// Defaults for a hosted build on the host platform: the host's triple,
    /// the given runtime and libraries, no link script and no entry symbol.
    pub fn host(runtime_c_path: String, link_libs: Vec<String>) -> (o: LinkOptions)
        ensures
            o.runtime_c_path == Some(runtime_c_path),
            o.link_libs == link_libs,
            o.link_script is None,
            o.entry_point is None,
    {
        LinkOptions {
            target: host_target_string(),
            runtime_c_path: Some(runtime_c_path),
            link_libs,
            link_script: None,
            entry_point: None,
        }
    }
}

/// The error shown when the Rust toolchain, and with it a linker, cannot be
/// found.
pub open spec fn rust_missing_text() -> Seq<char> {
    "linker not found\nRust toolchain not found. Please ensure Rust is installed:\n  `https://rustup.rs/`\n\nFor MSVC toolchain:\n  rustup default stable-msvc\n\nFor GNU toolchain (MinGW):\n  rustup default stable-gnu"@
}

/// The error shown when the Rust toolchain, and with it a linker, cannot be
/// found.
pub fn rust_not_installed_error() -> (s: String)
    ensures
        s@ == rust_missing_text(),
{
    owned(
        "linker not found\nRust toolchain not found. Please ensure Rust is installed:\n  `https://rustup.rs/`\n\nFor MSVC toolchain:\n  rustup default stable-msvc\n\nFor GNU toolchain (MinGW):\n  rustup default stable-gnu",
    )
}

/// The error shown when the MSVC link path finds no C compiler.
pub open spec fn msvc_missing_text() -> Seq<char> {
    "MSVC C compiler not found. The MSVC link path requires a C compiler\n(cl.exe or clang-cl.exe) to compile the Gobol runtime.\nInstall Visual Studio Build Tools (C++ workload) or run:\n  rustup default stable-gnu\nto use the MinGW (GNU) toolchain instead, which bundles gcc.exe."@
}

/// The error shown when the MSVC link path finds no C compiler.
pub fn msvc_toolchain_missing_error() -> (s: String)
    ensures
        s@ == msvc_missing_text(),
{
    owned(
        "MSVC C compiler not found. The MSVC link path requires a C compiler\n(cl.exe or clang-cl.exe) to compile the Gobol runtime.\nInstall Visual Studio Build Tools (C++ workload) or run:\n  rustup default stable-gnu\nto use the MinGW (GNU) toolchain instead, which bundles gcc.exe.",
    )
}

} // verus!

verus! {

/// How the final link is run.
#[derive(Debug, Clone, Copy, PartialEq, Eq, Structural)]
pub enum LinkerKind {
    /// A C compiler driver (`cc`, `gcc`, `gcc.exe`) that compiles the C
    /// runtime and links in one step.
    CcDriver,
    /// MSVC `link.exe` (or `lld-link.exe`), which only links.
    MsvcLink,
    /// A plain `ld` for bare-metal targets.
    BareLd,
}

/// One place where the linker may be found.
pub enum LinkerProbe {
    /// An executable of this name in a directory of `PATH`.
    OnPath(String),
    /// A file of this name in the `bin` directory of the Rust sysroot.
    InSysrootBin(String),
    /// An executable of this name in a directory of the `PATH` that the C
    /// toolchain discovery reports for the target.
    InCcEnvPath(String),
}

/// A probe as a mathematical value.
pub enum ProbeSpec {
    OnPath(Seq<char>),
    InSysrootBin(Seq<char>),
    InCcEnvPath(Seq<char>),
}

impl LinkerProbe {
    /// This probe as a mathematical value.
    pub open spec fn spec_of(&self) -> ProbeSpec {
        match self {
            LinkerProbe::OnPath(s) => ProbeSpec::OnPath(s@),
            LinkerProbe::InSysrootBin(s) => ProbeSpec::InSysrootBin(s@),
            LinkerProbe::InCcEnvPath(s) => ProbeSpec::InCcEnvPath(s@),
        }
    }
}

/// Where to look for the linker of a target, in order, and which kind of
/// link it will run.
pub struct LinkerPlan {
    pub kind: LinkerKind,
    /// Whether the Rust sysroot must be located first; its absence is then
    /// an error (`rust_not_installed_error`).
    pub needs_sysroot: bool,
    pub probes: Vec<LinkerProbe>,
}

/// The kind of link for a triple.
pub open spec fn linker_kind_for(t: Seq<u8>) -> LinkerKind {
    if bare_metal_triple(t) {
        LinkerKind::BareLd
    } else if msvc_triple(t) {
        LinkerKind::MsvcLink
    } else {
        LinkerKind::CcDriver
    }
}

/// Where the linker of a triple is looked for, in order: for bare-metal
/// targets `<arch>-linux-gnu-ld` then `ld` on `PATH`; for MSVC `link.exe`
/// in the discovered toolchain's `PATH`, `lld-link.exe` in the sysroot, then
/// `link.exe` on `PATH`; for other Windows targets `gcc.exe` in the sysroot
/// then on `PATH`; elsewhere `cc` then `gcc` on `PATH`.
pub open spec fn linker_probes_for(target: &str) -> Seq<ProbeSpec> {
    let t = target.spec_bytes();
    if bare_metal_triple(t) {
        seq![
            ProbeSpec::OnPath(decode_utf8(bytes_before(t, 45)) + "-linux-gnu-ld"@),
            ProbeSpec::OnPath("ld"@),
        ]
    } else if msvc_triple(t) {
        seq![
            ProbeSpec::InCcEnvPath("link.exe"@),
            ProbeSpec::InSysrootBin("lld-link.exe"@),
            ProbeSpec::OnPath("link.exe"@),
        ]
    } else if windows_triple(t) {
        seq![ProbeSpec::InSysrootBin("gcc.exe"@), ProbeSpec::OnPath("gcc.exe"@)]
    } else {
        seq![ProbeSpec::OnPath("cc"@), ProbeSpec::OnPath("gcc"@)]
    }
}

/// The error when no probe finds the linker; `bin_dir` is the sysroot's
/// `bin` directory as displayed.
pub open spec fn linker_missing_text(target: &str, bin_dir: Seq<char>) -> Seq<char> {
    let t = target.spec_bytes();
    if bare_metal_triple(t) {
        "linker not found for bare-metal target '"@ + target@ + "': no `ld` or `"@ + decode_utf8(bytes_before(t, 45))
            + "-linux-gnu-ld` on PATH"@
    } else if msvc_triple(t) {
        "linker not found for MSVC target '"@ + target@
            + "': the `cc` crate could not\nlocate the VS toolchain and no link.exe / lld-link.exe is on PATH.\nInstall Visual Studio with the 'Desktop development with C++' workload."@
    } else if windows_triple(t) {
        "linker not found for GNU target '"@ + target@ + "': no gcc.exe in "@ + bin_dir + " or on PATH"@
    } else {
        "linker not found for target '"@ + target@ + "': neither cc nor gcc on PATH"@
    }
}

fn on_path(name: &str) -> (p: LinkerProbe)
    ensures
        p.spec_of() == ProbeSpec::OnPath(name@),
{
    LinkerProbe::OnPath(owned(name))
}

/// Where to look for the linker of a target, and which kind of link it
/// runs. The sysroot is needed for every target but bare-metal ones.
pub fn linker_plan(target: &str) -> (p: LinkerPlan)
    ensures
        p.kind == linker_kind_for(target.spec_bytes()),
        p.needs_sysroot == !bare_metal_triple(target.spec_bytes()),
        p.probes@.map_values(|q: LinkerProbe| q.spec_of()) == linker_probes_for(target),
{
    let mut probes: Vec<LinkerProbe> = Vec::new();
    if target_is_bare_metal(target) {
        let mut cross = owned(text_before(target, 45));
        cross.append("-linux-gnu-ld");
        probes.push(LinkerProbe::OnPath(cross));
        probes.push(on_path("ld"));
        assert(probes@.map_values(|q: LinkerProbe| q.spec_of()) =~= linker_probes_for(target));
        return LinkerPlan { kind: LinkerKind::BareLd, needs_sysroot: false, probes };
    }
    if target_is_msvc(target) {
        probes.push(LinkerProbe::InCcEnvPath(owned("link.exe")));
        probes.push(LinkerProbe::InSysrootBin(owned("lld-link.exe")));
        probes.push(on_path("link.exe"));
        assert(probes@.map_values(|q: LinkerProbe| q.spec_of()) =~= linker_probes_for(target));
        return LinkerPlan { kind: LinkerKind::MsvcLink, needs_sysroot: true, probes };
    }
    if target_is_windows(target) {
        probes.push(LinkerProbe::InSysrootBin(owned("gcc.exe")));
        probes.push(on_path("gcc.exe"));
    } else {
        probes.push(on_path("cc"));
        probes.push(on_path("gcc"));
    }
    assert(probes@.map_values(|q: LinkerProbe| q.spec_of()) =~= linker_probes_for(target));
    LinkerPlan { kind: LinkerKind::CcDriver, needs_sysroot: true, probes }
}

/// The error when no probe finds the linker of `target`.
pub fn linker_not_found_error(target: &str, bin_dir: &str) -> (s: String)
    ensures
        s@ == linker_missing_text(target, bin_dir@),
{
    if target_is_bare_metal(target) {
        let mut s = owned("linker not found for bare-metal target '");
        s.append(target);
        s.append("': no `ld` or `");
        s.append(text_before(target, 45));
        s.append("-linux-gnu-ld` on PATH");
        return s;
    }
    if target_is_msvc(target) {
        let mut s = owned("linker not found for MSVC target '");
        s.append(target);
        s.append(
            "': the `cc` crate could not\nlocate the VS toolchain and no link.exe / lld-link.exe is on PATH.\nInstall Visual Studio with the 'Desktop development with C++' workload.",
        );
        return s;
    }
    if target_is_windows(target) {
        let mut s = owned("linker not found for GNU target '");
        s.append(target);
        s.append("': no gcc.exe in ");
        s.append(bin_dir);
        s.append(" or on PATH");
        return s;
    }
    let mut s = owned("linker not found for target '");
    s.append(target);
    s.append("': neither cc nor gcc on PATH");
    s
}

/// The index of the first probe that found something among the first `n`
/// results, or -1.
pub open spec fn first_found(found: Seq<Option<String>>, n: int) -> int
    decreases n,
{
    if n <= 0 {
        -1
    } else if first_found(found, n - 1) >= 0 {
        first_found(found, n - 1)
    } else if found[n - 1] is Some {
        n - 1
    } else {
        -1
    }
}

proof fn lemma_first_found(found: Seq<Option<String>>, n: int)
    requires
        0 <= n <= found.len(),
    ensures
        -1 <= first_found(found, n) < n,
        first_found(found, n) >= 0 ==> found[first_found(found, n)] is Some,
        forall|j: int| 0 <= j < n && (first_found(found, n) < 0 || j < first_found(found, n)) ==> found[j] is None,
    decreases n,
{
    if n > 0 {
        lemma_first_found(found, n - 1);
    }
}

/// The number of probe results that count: those of the plan's probes.
pub open spec fn probes_counted(target: &str, found: Seq<Option<String>>) -> int {
    if found.len() < linker_probes_for(target).len() {
        found.len() as int
    } else {
        linker_probes_for(target).len() as int
    }
}

/// `r` is the linker chosen from the probe results `found`: the first one
/// found, with the target's kind of link, or the not-found error.
pub open spec fn linker_choice(
    target: &str,
    bin_dir: Seq<char>,
    found: Seq<Option<String>>,
    r: Result<(String, LinkerKind), String>,
) -> bool {
    let i = first_found(found, probes_counted(target, found));
    match r {
        Ok(chosen) => {
            &&& i >= 0
            &&& found[i] is Some
            &&& chosen.0@ == found[i]->0@
            &&& chosen.1 == linker_kind_for(target.spec_bytes())
        },
        Err(e) => i < 0 && e@ == linker_missing_text(target, bin_dir),
    }
}

/// Picks the linker from the results of the probes of `linker_plan(target)`,
/// taken in order (`found[i]` is what probe `i` found; results past the
/// plan's probes are ignored): the first one found, with the plan's kind of
/// link, or the not-found error when none was.
pub fn detect_linker(target: &str, bin_dir: &str, found: &Vec<Option<String>>) -> (r: Result<(String, LinkerKind), String>)
    ensures
        linker_choice(target, bin_dir@, found@, r),
{
    let plan = linker_plan(target);
    let n = if found.len() < plan.probes.len() {
        found.len()
    } else {
        plan.probes.len()
    };
    proof {
        assert(plan.probes@.len() == linker_probes_for(target).len());
        lemma_first_found(found@, n as int);
    }
    let ghost spec_n: int = probes_counted(target, found@);
    assert(spec_n == n);
    let mut i: usize = 0;
    while i < n
        invariant
            spec_n == n,
            spec_n == probes_counted(target, found@),
            plan.kind == linker_kind_for(target.spec_bytes()),
            n <= found@.len(),
            i <= n,
            forall|j: int| 0 <= j < i ==> found@[j] is None,
        decreases n - i,
    {
        match &found[i] {
            Some(p) => {
                proof {
                    assert(first_found(found@, n as int) == i) by {
                        lemma_first_found(found@, n as int);
                        lemma_first_found(found@, i as int + 1);
                        lemma_first_found(found@, i as int);
                        let ff = first_found(found@, n as int);
                        if ff >= 0 && ff < i {
                            assert(found@[ff] is None);
                        }
                        if ff < 0 || ff > i {
                            assert(found@[i as int] is None);
                        }
                    }
                }
                let path = p.clone();
                return Ok((path, plan.kind));
            },
            None => {},
        }
        i = i + 1;
    }
    proof {
        let ff = first_found(found@, n as int);
        if ff >= 0 {
            assert(found@[ff] is None);
        }
    }
    Err(linker_not_found_error(target, bin_dir))
}

} // verus!

verus! {

// ==================== builtin calls ====================

/// The runtime function that a builtin's short name (the part after the
/// last `::`) calls, if it is a builtin.
pub open spec fn runtime_function_of(short: Seq<char>) -> Option<Seq<char>> {
    if short == "print"@ || short == "_print"@ || short == "gobol_print"@ {
        Some("gobol_print"@)
    } else if short == "println"@ || short == "_println"@ || short == "gobol_println"@ {
        Some("gobol_println"@)
    } else if short == "eprint"@ || short == "_eprint"@ || short == "gobol_eprint"@ {
        Some("gobol_eprint"@)
    } else if short == "eprintln"@ || short == "_eprintln"@ || short == "gobol_eprintln"@ {
        Some("gobol_eprintln"@)
    } else if short == "read"@ || short == "_read"@ || short == "gobol_read"@ {
        Some("gobol_read"@)
    } else if short == "sin"@ {
        Some("gobol_math_sin"@)
    } else if short == "cos"@ {
        Some("gobol_math_cos"@)
    } else if short == "pow"@ {
        Some("gobol_math_pow"@)
    } else if short == "exists"@ {
        Some("gobol_fs_exists"@)
    } else if short == "gobol_array_new"@ || short == "gobol_array_new_with_size"@ || short
        == "gobol_array_new_2d"@ || short == "gobol_gc_alloc"@ || short == "gobol_gc_mark"@ || short
        == "gobol_gc_sweep"@ || short == "gobol_gc_collect"@ || short == "gobol_gc_collect_now"@ || short
        == "gobol_gc_alloc_count"@ || short == "gobol_thread_spawn"@ || short == "gobol_thread_join"@
        || short == "gobol_chan_create"@ || short == "gobol_chan_send"@ || short == "gobol_chan_recv"@
        || short == "gobol_chan_destroy"@ {
        Some(short)
    } else {
        None
    }
}

fn one_of3(s: &str, a: &str, b: &str, c: &str) -> (r: bool)
    ensures
        r == (s@ == a@ || s@ == b@ || s@ == c@),
{
    str_eq(s, a) || str_eq(s, b) || str_eq(s, c)
}

/// The runtime function a builtin call name maps to. Call sites name
/// builtins bare (`print`) or with a module path (`builtins::gobol_print`);
/// only the part after the last `::` counts.
pub fn builtin_runtime(name: &str) -> (r: Option<&'static str>)
    ensures
        match r {
            Some(f) => runtime_function_of(decode_utf8(last_path_segment(name.spec_bytes()))) == Some(f@),
            None => runtime_function_of(decode_utf8(last_path_segment(name.spec_bytes()))) is None,
        },
{
    let short = last_segment(name);
    if one_of3(short, "print", "_print", "gobol_print") {
        return Some("gobol_print");
    }
    if one_of3(short, "println", "_println", "gobol_println") {
        return Some("gobol_println");
    }
    if one_of3(short, "eprint", "_eprint", "gobol_eprint") {
        return Some("gobol_eprint");
    }
    if one_of3(short, "eprintln", "_eprintln", "gobol_eprintln") {
        return Some("gobol_eprintln");
    }
    if one_of3(short, "read", "_read", "gobol_read") {
        return Some("gobol_read");
    }
    if str_eq(short, "sin") {
        return Some("gobol_math_sin");
    }
    if str_eq(short, "cos") {
        return Some("gobol_math_cos");
    }
    if str_eq(short, "pow") {
        return Some("gobol_math_pow");
    }
    if str_eq(short, "exists") {
        return Some("gobol_fs_exists");
    }
    if str_eq(short, "gobol_array_new") {
        return Some("gobol_array_new");
    }
    if str_eq(short, "gobol_array_new_with_size") {
        return Some("gobol_array_new_with_size");
    }
    if str_eq(short, "gobol_array_new_2d") {
        return Some("gobol_array_new_2d");
    }
    if str_eq(short, "gobol_gc_alloc") {
        return Some("gobol_gc_alloc");
    }
    if str_eq(short, "gobol_gc_mark") {
        return Some("gobol_gc_mark");
    }
    if str_eq(short, "gobol_gc_sweep") {
        return Some("gobol_gc_sweep");
    }
    if str_eq(short, "gobol_gc_collect") {
        return Some("gobol_gc_collect");
    }
    if str_eq(short, "gobol_gc_collect_now") {
        return Some("gobol_gc_collect_now");
    }
    if str_eq(short, "gobol_gc_alloc_count") {
        return Some("gobol_gc_alloc_count");
    }
    if str_eq(short, "gobol_thread_spawn") {
        return Some("gobol_thread_spawn");
    }
    if str_eq(short, "gobol_thread_join") {
        return Some("gobol_thread_join");
    }
    if str_eq(short, "gobol_chan_create") {
        return Some("gobol_chan_create");
    }
    if str_eq(short, "gobol_chan_send") {
        return Some("gobol_chan_send");
    }
    if str_eq(short, "gobol_chan_recv") {
        return Some("gobol_chan_recv");
    }
    if str_eq(short, "gobol_chan_destroy") {
        return Some("gobol_chan_destroy");
    }
    None
}

// ==================== symbols of compiled functions ====================

/// A character kept in a function's symbol: an ASCII letter or digit, `_`,
/// `.` or `:`.
pub open spec fn symbol_char(c: char) -> bool {
    ('a' <= c <= 'z') || ('A' <= c <= 'Z') || ('0' <= c <= '9') || c == '_' || c == '.' || c == ':'
}

/// The characters of `s` kept in a symbol, in order.
pub open spec fn symbol_chars(s: Seq<char>) -> Seq<char>
    decreases s.len(),
{
    if s.len() == 0 {
        s
    } else if symbol_char(s.last()) {
        symbol_chars(s.drop_last()).push(s.last())
    } else {
        symbol_chars(s.drop_last())
    }
}

/// The symbol a compiled function of `arity` parameters is emitted under:
/// `gbl_<name>_<arity>`, the name keeping only symbol characters, with `::`
/// and then `.` turned into `_`.
pub open spec fn func_symbol_spec(name: Seq<char>, arity: nat) -> Seq<char> {
    "gbl_"@ + replace_seq(replace_seq(symbol_chars(name), "::"@, "_"@), "."@, "_"@) + "_"@ + nat_digits(arity)
}

/// The symbol a compiled function is emitted under (see
/// `func_symbol_spec`).
pub fn func_symbol(name: &str, arity: usize) -> (s: String)
    ensures
        s@ == func_symbol_spec(name@, arity as nat),
{
    let cs = str_chars(name);
    let mut kept = String::new();
    let mut i: usize = 0;
    assert(cs@.take(0) =~= Seq::<char>::empty());
    while i < cs.len()
        invariant
            cs@ == name@,
            i <= cs@.len(),
            kept@ == symbol_chars(cs@.take(i as int)),
        decreases cs@.len() - i,
    {
        let c = cs[i];
        assert(cs@.take(i + 1).drop_last() =~= cs@.take(i as int));
        assert(cs@.take(i + 1).last() == c);
        if ('a' <= c && c <= 'z') || ('A' <= c && c <= 'Z') || ('0' <= c && c <= '9') || c == '_' || c == '.' || c
            == ':' {
            let one = char_to_string(c);
            kept.append(one.as_str());
        }
        i = i + 1;
    }
    assert(cs@.take(i as int) =~= name@);
    proof {
        reveal_strlit("::");
        reveal_strlit(".");
    }
    let step = replace_text(kept.as_str(), "::", "_");
    let clean = replace_text(step.as_str(), ".", "_");
    let mut s = owned("gbl_");
    s.append(clean.as_str());
    s.append("_");
    append_nat(&mut s, arity as u64);
    s
}

/// The runtime function behind an intrinsic method of a standard-library
/// struct (`File`, `TcpStream`, `TcpListener`).
pub open spec fn struct_intrinsic_spec(struct_name: Seq<char>, method: Seq<char>) -> Option<Seq<char>> {
    if struct_name == "File"@ {
        if method == "open"@ {
            Some("gobol_fs_open"@)
        } else if method == "read_all"@ {
            Some("gobol_fs_read_all"@)
        } else if method == "write"@ {
            Some("gobol_fs_write"@)
        } else if method == "close"@ {
            Some("gobol_fs_close"@)
        } else {
            None
        }
    } else if struct_name == "TcpStream"@ {
        if method == "connect"@ {
            Some("gobol_tcp_connect"@)
        } else if method == "send"@ {
            Some("gobol_tcp_send"@)
        } else if method == "recv"@ {
            Some("gobol_tcp_recv"@)
        } else if method == "close"@ {
            Some("gobol_tcp_close"@)
        } else {
            None
        }
    } else if struct_name == "TcpListener"@ {
        if method == "bind"@ {
            Some("gobol_tcp_bind"@)
        } else if method == "accept"@ {
            Some("gobol_tcp_accept"@)
        } else {
            None
        }
    } else {
        None
    }
}

/// The runtime function behind an intrinsic struct method (see
/// `struct_intrinsic_spec`).
pub fn struct_intrinsic_runtime(struct_name: &str, method: &str) -> (r: Option<&'static str>)
    ensures
        match r {
            Some(f) => struct_intrinsic_spec(struct_name@, method@) == Some(f@),
            None => struct_intrinsic_spec(struct_name@, method@) is None,
        },
{
    if str_eq(struct_name, "File") {
        if str_eq(method, "open") {
            return Some("gobol_fs_open");
        }
        if str_eq(method, "read_all") {
            return Some("gobol_fs_read_all");
        }
        if str_eq(method, "write") {
            return Some("gobol_fs_write");
        }
        if str_eq(method, "close") {
            return Some("gobol_fs_close");
        }
        return None;
    }
    if str_eq(struct_name, "TcpStream") {
        if str_eq(method, "connect") {
            return Some("gobol_tcp_connect");
        }
        if str_eq(method, "send") {
            return Some("gobol_tcp_send");
        }
        if str_eq(method, "recv") {
            return Some("gobol_tcp_recv");
        }
        if str_eq(method, "close") {
            return Some("gobol_tcp_close");
        }
        return None;
    }
    if str_eq(struct_name, "TcpListener") {
        if str_eq(method, "bind") {
            return Some("gobol_tcp_bind");
        }
        if str_eq(method, "accept") {
            return Some("gobol_tcp_accept");
        }
        return None;
    }
    None
}

/// The runtime functions that return nothing.
pub open spec fn void_runtime(name: Seq<char>) -> bool {
    ||| name == "gobol_print"@ || name == "gobol_println"@ || name == "gobol_eprint"@ || name == "gobol_eprintln"@
    ||| name == "gobol_array_add"@ || name == "gobol_array_set"@ || name == "gobol_mem_store"@
    ||| name == "gobol_fs_close"@ || name == "gobol_tcp_close"@ || name == "gobol_chan_destroy"@
}

/// Whether a runtime function returns nothing.
pub fn func_returns_void(name: &str) -> (r: bool)
    ensures
        r == void_runtime(name@),
{
    str_eq(name, "gobol_print") || str_eq(name, "gobol_println") || str_eq(name, "gobol_eprint") || str_eq(
        name,
        "gobol_eprintln",
    ) || str_eq(name, "gobol_array_add") || str_eq(name, "gobol_array_set") || str_eq(name, "gobol_mem_store")
        || str_eq(name, "gobol_fs_close") || str_eq(name, "gobol_tcp_close") || str_eq(name, "gobol_chan_destroy")
}

/// The part of `a` after the prefix `extern:`, if it has that prefix.
pub open spec fn extern_alias(a: Seq<char>) -> Option<Seq<char>> {
    if a.len() >= 7 && a.take(7) == "extern:"@ {
        Some(a.skip(7))
    } else {
        None
    }
}

/// The name given by the first attribute of the form `extern:<name>`.
pub open spec fn explicit_extern_name(attrs: Seq<Seq<char>>) -> Option<Seq<char>>
    decreases attrs.len(),
{
    if attrs.len() == 0 {
        None
    } else if extern_alias(attrs[0]) is Some {
        extern_alias(attrs[0])
    } else {
        explicit_extern_name(attrs.drop_first())
    }
}

/// The linker symbol of a function: an `extern` function keeps its C name
/// (given by an `extern:<name>` attribute, else the last `::` segment of
/// its name); any other is mangled (see `func_symbol_spec`).
pub open spec fn linker_symbol_spec(name: Seq<char>, attrs: Seq<Seq<char>>, arity: nat) -> Seq<char> {
    if attrs.contains("extern"@) {
        match explicit_extern_name(attrs) {
            Some(n) => n,
            None => decode_utf8(last_path_segment(encode_utf8(name))),
        }
    } else {
        func_symbol_spec(name, arity)
    }
}

/// The text after the prefix `extern:`, if `a` has it.
fn strip_extern_prefix(a: &str) -> (r: Option<String>)
    ensures
        match r {
            Some(t) => extern_alias(a@) == Some(t@),
            None => extern_alias(a@) is None,
        },
{
    let cs = str_chars(a);
    let p = str_chars("extern:");
    proof {
        reveal_strlit("extern:");
    }
    if cs.len() < p.len() {
        return None;
    }
    let mut k: usize = 0;
    while k < p.len()
        invariant
            cs@ == a@,
            p@ == "extern:"@,
            "extern:"@.len() == 7,
            p@.len() <= cs@.len(),
            k <= p@.len(),
            forall|m: int| 0 <= m < k ==> cs@[m] == p@[m],
        decreases p@.len() - k,
    {
        if cs[k] != p[k] {
            assert(a@.take(7)[k as int] != "extern:"@[k as int]);
            return None;
        }
        k = k + 1;
    }
    assert(a@.take(7) =~= "extern:"@);
    let t = chars_to_string(&cs, 7, cs.len());
    assert(a@.skip(7) =~= cs@.subrange(7, cs@.len() as int));
    Some(t)
}

/// The linker symbol a function is declared under (see
/// `linker_symbol_spec`).
pub fn linker_symbol(name: &str, attributes: &Vec<String>, arity: usize) -> (s: String)
    ensures
        s@ == linker_symbol_spec(name@, strings_view(attributes@), arity as nat),
{
    let ghost av = strings_view(attributes@);
    let mut is_extern = false;
    let mut i: usize = 0;
    while i < attributes.len()
        invariant
            i <= attributes@.len(),
            av == strings_view(attributes@),
            av.len() == attributes@.len(),
            is_extern <==> exists|k: int| 0 <= k < i && av[k] == "extern"@,
        decreases attributes@.len() - i,
    {
        assert(av[i as int] == attributes@[i as int]@);
        if str_eq(attributes[i].as_str(), "extern") {
            is_extern = true;
        }
        i = i + 1;
    }
    proof {
        if av.contains("extern"@) {
            let k = choose|k: int| 0 <= k < av.len() && av[k] == "extern"@;
            assert(exists|j: int| 0 <= j < attributes@.len() && av[j] == "extern"@);
        }
    }
    if !is_extern {
        return func_symbol(name, arity);
    }
    proof {
        let k = choose|k: int| 0 <= k < i && av[k] == "extern"@;
        assert(av[k] == "extern"@);
    }
    let mut j: usize = 0;
    assert(av.skip(0) =~= av);
    while j < attributes.len()
        invariant
            j <= attributes@.len(),
            av == strings_view(attributes@),
            av.len() == attributes@.len(),
            explicit_extern_name(av) == explicit_extern_name(av.skip(j as int)),
            av.contains("extern"@),
        decreases attributes@.len() - j,
    {
        assert(av.skip(j as int)[0] == attributes@[j as int]@);
        assert(av.skip(j as int).drop_first() =~= av.skip(j + 1));
        match strip_extern_prefix(attributes[j].as_str()) {
            Some(t) => {
                return t;
            },
            None => {},
        }
        j = j + 1;
    }
    assert(av.skip(j as int) =~= Seq::<Seq<char>>::empty());
    owned(last_segment(name))
}

} // verus!
