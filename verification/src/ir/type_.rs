//! IR types. Every type lives in the module's type table and is referred to
//! by its index there; the table is hash-consed, so two type indices are
//! equal exactly when the types are structurally equal.

use vstd::prelude::*;

verus! {

pub struct FunctionType {
    pub result: usize,
    pub args: Vec<usize>,
}

pub struct ArrayType {
    pub item: usize,
    pub elem_count: usize,
}

pub struct PointerType {
    pub item: usize,
}

pub enum TypeData {
    VoidType,
    LabelType,
    IntegerType,
    FloatType,
    BoolType,
    FunctionType(FunctionType),
    ArrayType(ArrayType),
    PointerType(PointerType),
}

pub struct Type {
    pub tdata: TypeData,
}

/// Structural equality of two type descriptions (children compared by index).
pub open spec fn same_tdata(a: TypeData, b: TypeData) -> bool {
    match (a, b) {
        (TypeData::VoidType, TypeData::VoidType) => true,
        (TypeData::LabelType, TypeData::LabelType) => true,
        (TypeData::IntegerType, TypeData::IntegerType) => true,
        (TypeData::FloatType, TypeData::FloatType) => true,
        (TypeData::BoolType, TypeData::BoolType) => true,
        (TypeData::FunctionType(f), TypeData::FunctionType(g)) => f.result == g.result && f.args@ == g.args@,
        (TypeData::ArrayType(f), TypeData::ArrayType(g)) => f.item == g.item && f.elem_count == g.elem_count,
        (TypeData::PointerType(f), TypeData::PointerType(g)) => f.item == g.item,
        _ => false,
    }
}

/// Same variant, payload ignored.
pub open spec fn same_kind(a: TypeData, b: TypeData) -> bool {
    match (a, b) {
        (TypeData::VoidType, TypeData::VoidType) => true,
        (TypeData::LabelType, TypeData::LabelType) => true,
        (TypeData::IntegerType, TypeData::IntegerType) => true,
        (TypeData::FloatType, TypeData::FloatType) => true,
        (TypeData::BoolType, TypeData::BoolType) => true,
        (TypeData::FunctionType(_), TypeData::FunctionType(_)) => true,
        (TypeData::ArrayType(_), TypeData::ArrayType(_)) => true,
        (TypeData::PointerType(_), TypeData::PointerType(_)) => true,
        _ => false,
    }
}

/// All type indices that a type description refers to are below `bound`.
pub open spec fn tdata_children_below(t: TypeData, bound: nat) -> bool {
    match t {
        TypeData::FunctionType(f) => f.result < bound && forall|k: int|
            0 <= k < f.args@.len() ==> #[trigger] f.args@[k] < bound,
        TypeData::ArrayType(a) => a.item < bound,
        TypeData::PointerType(p) => p.item < bound,
        _ => true,
    }
}

pub open spec fn ptr_elem_spec(t: TypeData) -> Option<usize> {
    match t {
        TypeData::PointerType(p) => Some(p.item),
        _ => None,
    }
}

pub open spec fn arr_elem_spec(t: TypeData) -> Option<usize> {
    match t {
        TypeData::ArrayType(a) => Some(a.item),
        _ => None,
    }
}

pub open spec fn func_ret_spec(t: TypeData) -> Option<usize> {
    match t {
        TypeData::FunctionType(f) => Some(f.result),
        _ => None,
    }
}

pub open spec fn func_args_spec(t: TypeData) -> Option<Seq<usize>> {
    match t {
        TypeData::FunctionType(f) => Some(f.args@),
        _ => None,
    }
}

impl Type {
    pub fn new(tdata: TypeData) -> (t: Self)
        ensures
            t.tdata == tdata,
    {
        Type { tdata }
    }

    pub fn tdata(&self) -> (r: &TypeData)
        ensures
            *r == self.tdata,
    {
        &self.tdata
    }

    /// Whether the two types are of the same kind (payload not compared).
    pub fn is_same_id(&self, other: &Self) -> (r: bool)
        ensures
            r == same_kind(self.tdata, other.tdata),
    {
        match (&self.tdata, &other.tdata) {
            (TypeData::VoidType, TypeData::VoidType) => true,
            (TypeData::LabelType, TypeData::LabelType) => true,
            (TypeData::IntegerType, TypeData::IntegerType) => true,
            (TypeData::FloatType, TypeData::FloatType) => true,
            (TypeData::BoolType, TypeData::BoolType) => true,
            (TypeData::FunctionType(_), TypeData::FunctionType(_)) => true,
            (TypeData::ArrayType(_), TypeData::ArrayType(_)) => true,
            (TypeData::PointerType(_), TypeData::PointerType(_)) => true,
            _ => false,
        }
    }

    pub fn get_ptr_elem_ty(&self) -> (r: Option<usize>)
        ensures
            r == ptr_elem_spec(self.tdata),
    {
        match &self.tdata {
            TypeData::PointerType(p) => Some(p.item),
            _ => None,
        }
    }

    pub fn get_arr_elem_ty(&self) -> (r: Option<usize>)
        ensures
            r == arr_elem_spec(self.tdata),
    {
        match &self.tdata {
            TypeData::ArrayType(a) => Some(a.item),
            _ => None,
        }
    }

    pub fn is_void(&self) -> (r: bool)
        ensures
            r == (self.tdata is VoidType),
    {
        matches!(self.tdata, TypeData::VoidType)
    }

    pub fn is_label(&self) -> (r: bool)
        ensures
            r == (self.tdata is LabelType),
    {
        matches!(self.tdata, TypeData::LabelType)
    }

    pub fn is_int(&self) -> (r: bool)
        ensures
            r == (self.tdata is IntegerType),
    {
        matches!(self.tdata, TypeData::IntegerType)
    }

    pub fn is_float(&self) -> (r: bool)
        ensures
            r == (self.tdata is FloatType),
    {
        matches!(self.tdata, TypeData::FloatType)
    }

    pub fn is_bool(&self) -> (r: bool)
        ensures
            r == (self.tdata is BoolType),
    {
        matches!(self.tdata, TypeData::BoolType)
    }

    pub fn is_func(&self) -> (r: bool)
        ensures
            r == (self.tdata is FunctionType),
    {
        matches!(self.tdata, TypeData::FunctionType(_))
    }

    pub fn is_arr(&self) -> (r: bool)
        ensures
            r == (self.tdata is ArrayType),
    {
        matches!(self.tdata, TypeData::ArrayType(_))
    }

    pub fn is_ptr(&self) -> (r: bool)
        ensures
            r == (self.tdata is PointerType),
    {
        matches!(self.tdata, TypeData::PointerType(_))
    }

    pub fn is_bool_or_int(&self) -> (r: bool)
        ensures
            r == (self.tdata is BoolType || self.tdata is IntegerType),
    {
        self.is_bool() || self.is_int()
    }

    /// Return type of a function type.
    pub fn get_func_ret_ty(&self) -> (r: Option<usize>)
        ensures
            r == func_ret_spec(self.tdata),
    {
        match &self.tdata {
            TypeData::FunctionType(f) => Some(f.result),
            _ => None,
        }
    }

    /// Number of parameters of a function type.
    pub fn get_func_arg_num(&self) -> (r: Option<usize>)
        ensures
            r matches Some(n) ==> func_args_spec(self.tdata) matches Some(a) && n == a.len(),
            r is None <==> func_args_spec(self.tdata) is None,
    {
        match &self.tdata {
            TypeData::FunctionType(f) => Some(f.args.len()),
            _ => None,
        }
    }

    /// Type of parameter `idx` of a function type.
    pub fn get_func_param_ty(&self, idx: usize) -> (r: Option<usize>)
        requires
            (match self.tdata {
                TypeData::FunctionType(f) => idx < f.args@.len(),
                _ => true,
            }),
        ensures
            r == (match self.tdata {
                TypeData::FunctionType(f) => Some(f.args@[idx as int]),
                _ => None,
            }),
    {
        match &self.tdata {
            TypeData::FunctionType(f) => Some(f.args[idx]),
            _ => None,
        }
    }
}

} // verus!
