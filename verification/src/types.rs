//! The semantic types of the language and the declarations that introduce
//! them.

use vstd::prelude::*;
use crate::id::{ConstantID, FunctionID, TypeID};
use crate::provenance::SourceRange;

verus! {

#[derive(Copy, Clone, Debug, PartialEq, Eq, Hash, Structural)]
pub enum PrimitiveType {
    Bool,
    Char,
    Int32,
    Int64,
    Float32,
    Float64,
    PointerSize,
}

/// Whether a pointer may be written through (`Unique`) or only read.
#[derive(Copy, Clone, Debug, PartialEq, Eq, Hash, Structural)]
pub enum PointerKind {
    Unique,
    Shared,
}

/// The parameter types of an anonymous function signature, first to last.
#[derive(Debug, PartialEq, Eq)]
pub enum ParameterList {
    Nil,
    Cons(Box<ExpressionType>, Box<ParameterList>),
}

#[derive(Debug, PartialEq, Eq)]
pub enum CollectionType {
    Array(Box<ExpressionType>),
    Dict(Box<ExpressionType>, Box<ExpressionType>),
    String,
    ReferenceCounter(Box<ExpressionType>),
    Cell(Box<ExpressionType>),
}

/// The type of an expression.
#[derive(Debug, PartialEq, Eq)]
pub enum ExpressionType {
    Void,
    Unreachable,
    Null,
    Primitive(PrimitiveType),
    /// A value of a declared type.
    InstanceOf(TypeID),
    /// A declared type itself, as a value.
    ReferenceToType(TypeID),
    /// A named function, as a value.
    ReferenceToFunction(FunctionID),
    /// An anonymous function signature.
    FunctionReference { parameters: ParameterList, returns: Box<ExpressionType> },
    Pointer(PointerKind, Box<ExpressionType>),
    Collection(CollectionType),
    Nullable(Box<ExpressionType>),
    Generator { yield_ty: Box<ExpressionType>, param_ty: Box<ExpressionType> },
    /// A generic parameter that is not bound yet, by its position.
    TypeParameterReference(usize),
}

impl Clone for ParameterList {
    fn clone(&self) -> (r: ParameterList)
        ensures
            r == *self,
    {
        self.duplicate()
    }
}

impl Clone for CollectionType {
    fn clone(&self) -> (r: CollectionType)
        ensures
            r == *self,
    {
        self.duplicate()
    }
}

impl Clone for ExpressionType {
    fn clone(&self) -> (r: ExpressionType)
        ensures
            r == *self,
    {
        self.duplicate()
    }
}

impl ParameterList {
    /// The parameter types as a sequence.
    pub open spec fn to_seq(self) -> Seq<ExpressionType>
        decreases self,
    {
        match self {
            ParameterList::Nil => Seq::empty(),
            ParameterList::Cons(head, tail) => seq![*head] + tail.to_seq(),
        }
    }

    /// The list of one parameter.
    pub fn single(ty: ExpressionType) -> (r: ParameterList)
        ensures
            r.to_seq() == seq![ty],
            r == ParameterList::Cons(Box::new(ty), Box::new(ParameterList::Nil)),
    {
        let r = ParameterList::Cons(Box::new(ty), Box::new(ParameterList::Nil));
        assert(r.to_seq() =~= seq![ty]) by {
            reveal_with_fuel(ParameterList::to_seq, 3);
        }
        r
    }

    /// A copy of the list.
    pub fn duplicate(&self) -> (r: ParameterList)
        ensures
            r == *self,
        decreases *self,
    {
        match self {
            ParameterList::Nil => ParameterList::Nil,
            ParameterList::Cons(head, tail) => ParameterList::Cons(
                Box::new(head.duplicate()),
                Box::new(tail.duplicate()),
            ),
        }
    }

    /// Whether two lists hold the same types in the same order.
    pub fn same(&self, other: &ParameterList) -> (r: bool)
        ensures
            r == (*self == *other),
        decreases *self,
    {
        match (self, other) {
            (ParameterList::Nil, ParameterList::Nil) => true,
            (ParameterList::Cons(h1, t1), ParameterList::Cons(h2, t2)) => h1.same(h2) && t1.same(
                t2,
            ),
            _ => false,
        }
    }
}

impl CollectionType {
    /// A copy of the type.
    pub fn duplicate(&self) -> (r: CollectionType)
        ensures
            r == *self,
        decreases *self,
    {
        match self {
            CollectionType::Array(inner) => CollectionType::Array(Box::new(inner.duplicate())),
            CollectionType::Dict(key, value) => CollectionType::Dict(
                Box::new(key.duplicate()),
                Box::new(value.duplicate()),
            ),
            CollectionType::String => CollectionType::String,
            CollectionType::ReferenceCounter(inner) => CollectionType::ReferenceCounter(
                Box::new(inner.duplicate()),
            ),
            CollectionType::Cell(inner) => CollectionType::Cell(Box::new(inner.duplicate())),
        }
    }

    /// Whether two collection types are the same type.
    pub fn same(&self, other: &CollectionType) -> (r: bool)
        ensures
            r == (*self == *other),
        decreases *self,
    {
        match (self, other) {
            (CollectionType::Array(a), CollectionType::Array(b)) => a.same(b),
            (CollectionType::Dict(ak, av), CollectionType::Dict(bk, bv)) => ak.same(bk) && av.same(
                bv,
            ),
            (CollectionType::String, CollectionType::String) => true,
            (CollectionType::ReferenceCounter(a), CollectionType::ReferenceCounter(b)) => a.same(
                b,
            ),
            (CollectionType::Cell(a), CollectionType::Cell(b)) => a.same(b),
            _ => false,
        }
    }
}

impl ExpressionType {
    /// A copy of the type.
    pub fn duplicate(&self) -> (r: ExpressionType)
        ensures
            r == *self,
        decreases *self,
    {
        match self {
            ExpressionType::Void => ExpressionType::Void,
            ExpressionType::Unreachable => ExpressionType::Unreachable,
            ExpressionType::Null => ExpressionType::Null,
            ExpressionType::Primitive(p) => ExpressionType::Primitive(*p),
            ExpressionType::InstanceOf(id) => ExpressionType::InstanceOf(*id),
            ExpressionType::ReferenceToType(id) => ExpressionType::ReferenceToType(*id),
            ExpressionType::ReferenceToFunction(id) => ExpressionType::ReferenceToFunction(*id),
            ExpressionType::FunctionReference { parameters, returns: result } => {
                ExpressionType::FunctionReference {
                    parameters: parameters.duplicate(),
                    returns: Box::new(result.duplicate()),
                }
            },
            ExpressionType::Pointer(kind, inner) => ExpressionType::Pointer(
                *kind,
                Box::new(inner.duplicate()),
            ),
            ExpressionType::Collection(c) => ExpressionType::Collection(c.duplicate()),
            ExpressionType::Nullable(inner) => ExpressionType::Nullable(
                Box::new(inner.duplicate()),
            ),
            ExpressionType::Generator { yield_ty, param_ty } => ExpressionType::Generator {
                yield_ty: Box::new(yield_ty.duplicate()),
                param_ty: Box::new(param_ty.duplicate()),
            },
            ExpressionType::TypeParameterReference(i) => ExpressionType::TypeParameterReference(
                *i,
            ),
        }
    }

    /// Whether two types are the same type.
    pub fn same(&self, other: &ExpressionType) -> (r: bool)
        ensures
            r == (*self == *other),
        decreases *self,
    {
        match (self, other) {
            (ExpressionType::Void, ExpressionType::Void) => true,
            (ExpressionType::Unreachable, ExpressionType::Unreachable) => true,
            (ExpressionType::Null, ExpressionType::Null) => true,
            (ExpressionType::Primitive(a), ExpressionType::Primitive(b)) => *a == *b,
            (ExpressionType::InstanceOf(a), ExpressionType::InstanceOf(b)) => *a == *b,
            (ExpressionType::ReferenceToType(a), ExpressionType::ReferenceToType(b)) => *a == *b,
            (ExpressionType::ReferenceToFunction(a), ExpressionType::ReferenceToFunction(b)) => *a
                == *b,
            (
                ExpressionType::FunctionReference { parameters: pa, returns: ra },
                ExpressionType::FunctionReference { parameters: pb, returns: rb },
            ) => pa.same(pb) && ra.same(rb),
            (ExpressionType::Pointer(ka, a), ExpressionType::Pointer(kb, b)) => *ka == *kb
                && a.same(b),
            (ExpressionType::Collection(a), ExpressionType::Collection(b)) => a.same(b),
            (ExpressionType::Nullable(a), ExpressionType::Nullable(b)) => a.same(b),
            (
                ExpressionType::Generator { yield_ty: ya, param_ty: pa },
                ExpressionType::Generator { yield_ty: yb, param_ty: pb },
            ) => ya.same(yb) && pa.same(pb),
            (
                ExpressionType::TypeParameterReference(a),
                ExpressionType::TypeParameterReference(b),
            ) => *a == *b,
            _ => false,
        }
    }

    /// Whether the type is a pointer.
    pub fn is_pointer(&self) -> (r: bool)
        ensures
            r == (*self is Pointer),
    {
        match self {
            ExpressionType::Pointer(_, _) => true,
            _ => false,
        }
    }
}

/// The signature of a function.
#[derive(Clone, Debug, PartialEq, Eq)]
pub struct FuncType {
    pub id: FunctionID,
    pub type_param_count: usize,
    pub params: Vec<ExpressionType>,
    pub returns: ExpressionType,
    pub is_associated: bool,
    pub is_coroutine: bool,
    pub provenance: Option<SourceRange>,
}

#[derive(Clone, Debug, PartialEq, Eq)]
pub struct StructType {
    pub id: TypeID,
    /// The fields in declaration order.
    pub fields: Vec<(String, ExpressionType)>,
    pub associated_functions: Vec<(String, FunctionID)>,
    pub is_affine: bool,
}

#[derive(Clone, Debug, PartialEq, Eq)]
pub struct UnionType {
    pub id: TypeID,
    /// The variants in declaration order, each with its payload if it has
    /// one. A variant's tag is its position here.
    pub variants: Vec<(String, Option<ExpressionType>)>,
    pub is_affine: bool,
}

#[derive(Clone, Debug, PartialEq, Eq)]
pub struct InterfaceType {
    pub id: TypeID,
    /// The methods in declaration order.
    pub associated_functions: Vec<(String, FunctionID)>,
}

/// What a module exports or a file imports under a name: the constant it
/// names, if it names one, and its type.
#[derive(Clone, Debug, PartialEq, Eq)]
pub struct Export {
    pub constant: Option<ConstantID>,
    pub ty: ExpressionType,
}

#[derive(Clone, Debug, PartialEq, Eq)]
pub struct ModuleType {
    pub id: TypeID,
    pub exports: Vec<(String, Export)>,
}

#[derive(Clone, Debug, PartialEq, Eq)]
pub enum TypeDeclaration {
    Struct(StructType),
    Union(UnionType),
    Interface(InterfaceType),
    Module(ModuleType),
}

/// The position of the first entry named `name`, if there is one.
pub open spec fn name_index<X>(entries: Seq<(String, X)>, name: Seq<char>) -> Option<int>
    decreases entries.len(),
{
    if entries.len() == 0 {
        None
    } else if entries[0].0@ == name {
        Some(0int)
    } else {
        match name_index(entries.skip(1), name) {
            Some(i) => Some(i + 1),
            None => None,
        }
    }
}

/// `name_index` finds the first entry of that name and no other.
pub proof fn lemma_name_index<X>(entries: Seq<(String, X)>, name: Seq<char>)
    ensures
        match name_index(entries, name) {
            Some(i) => 0 <= i < entries.len() && entries[i].0@ == name && forall|k: int|
                0 <= k < i ==> entries[k].0@ != name,
            None => forall|k: int| 0 <= k < entries.len() ==> entries[k].0@ != name,
        },
    decreases entries.len(),
{
    if entries.len() > 0 && entries[0].0@ != name {
        let rest = entries.skip(1);
        lemma_name_index(rest, name);
        match name_index(rest, name) {
            Some(i) => {
                assert forall|k: int| 0 <= k < i + 1 implies entries[k].0@ != name by {
                    if k > 0 {
                        assert(rest[k - 1] == entries[k]);
                    }
                }
            },
            None => {
                assert forall|k: int| 0 <= k < entries.len() implies entries[k].0@ != name by {
                    if k > 0 {
                        assert(rest[k - 1] == entries[k]);
                    }
                }
            },
        }
    }
}

/// Whether no two entries share a name.
pub open spec fn names_distinct<X>(entries: Seq<(String, X)>) -> bool {
    forall|i: int, j: int|
        0 <= i < j < entries.len() ==> (#[trigger] entries[i]).0@ != (#[trigger] entries[j]).0@
}

/// The position of the first entry named `name`.
pub fn find_name<X>(entries: &Vec<(String, X)>, name: &String) -> (r: Option<usize>)
    ensures
        match r {
            Some(i) => name_index(entries@, name@) == Some(i as int) && i < entries@.len(),
            None => name_index(entries@, name@).is_none(),
        },
{
    let mut i: usize = 0;
    while i < entries.len()
        invariant
            0 <= i <= entries.len(),
            forall|k: int| 0 <= k < i ==> entries@[k].0@ != name@,
        decreases entries.len() - i,
    {
        if entries[i].0 == *name {
            proof {
                lemma_name_index(entries@, name@);
            }
            return Some(i);
        }
        i = i + 1;
    }
    proof {
        lemma_name_index(entries@, name@);
    }
    None
}

impl TypeDeclaration {
    pub open spec fn spec_id(&self) -> TypeID {
        match self {
            TypeDeclaration::Struct(s) => s.id,
            TypeDeclaration::Union(u) => u.id,
            TypeDeclaration::Interface(i) => i.id,
            TypeDeclaration::Module(m) => m.id,
        }
    }

    /// The identifier under which the type was declared.
    pub fn id(&self) -> (id: TypeID)
        ensures
            id == self.spec_id(),
    {
        match self {
            TypeDeclaration::Struct(s) => s.id,
            TypeDeclaration::Union(u) => u.id,
            TypeDeclaration::Interface(i) => i.id,
            TypeDeclaration::Module(m) => m.id,
        }
    }

    /// The type of the declared type when it is named as a value.
    pub fn ref_to(&self) -> (ty: ExpressionType)
        ensures
            ty == ExpressionType::ReferenceToType(self.spec_id()),
    {
        ExpressionType::ReferenceToType(self.id())
    }

    /// The type of a value of the declared type.
    pub fn expr(&self) -> (ty: ExpressionType)
        ensures
            ty == ExpressionType::InstanceOf(self.spec_id()),
    {
        ExpressionType::InstanceOf(self.id())
    }

    /// The declaration as a module, if it is one.
    pub fn as_module(&self) -> (m: Option<&ModuleType>)
        ensures
            match m {
                Some(module) => *self == TypeDeclaration::Module(*module),
                None => !(self is Module),
            },
    {
        match self {
            TypeDeclaration::Module(m) => Some(m),
            _ => None,
        }
    }

    /// Whether values of the type may be used at most once. Only structs
    /// and unions can be declared so.
    pub fn is_affine(&self) -> (b: bool)
        ensures
            b == match *self {
                TypeDeclaration::Struct(s) => s.is_affine,
                TypeDeclaration::Union(u) => u.is_affine,
                _ => false,
            },
    {
        match self {
            TypeDeclaration::Struct(s) => s.is_affine,
            TypeDeclaration::Union(u) => u.is_affine,
            _ => false,
        }
    }
}

} // verus!
