//! The memory layout of types: how many bytes a value takes and where the
//! parts of a declared type lie.

use vstd::prelude::*;
use crate::hir::{ArithmeticOp, BinaryLogicalOp, ComparisonOp, UnaryLogicalOp};
use crate::id::{FunctionID, TypeID, VariableID};
use crate::provenance::SourceRange;
use crate::types::{
    find_name, name_index, CollectionType, ExpressionType, InterfaceType, PrimitiveType,
    StructType, TypeDeclaration, UnionType,
};

verus! {

/// A size counted in pointers.
#[derive(Copy, Clone, Debug, PartialEq, Eq, Structural)]
pub struct SizeInPointers(pub usize);

/// The pointers taken by the tag that says which variant a union holds.
pub const UNION_TAG_POINTERS: usize = 1;

/// The pointers taken by the tag that says whether a nullable holds a
/// value.
pub const NULL_TAG_POINTERS: usize = 1;

/// The bytes that a function identifier takes in a table of methods.
pub const FUNCTION_ID_SIZE: usize = 4;

impl SizeInPointers {
    /// The size in bytes on a machine with pointers of `pointer_size`
    /// bytes; `None` when it does not fit the machine word.
    pub fn size(&self, pointer_size: usize) -> (r: Option<usize>)
        ensures
            r == if self.0 * pointer_size <= usize::MAX {
                Some((self.0 * pointer_size) as usize)
            } else {
                None
            },
    {
        self.0.checked_mul(pointer_size)
    }
}

#[derive(Copy, Clone, Debug, PartialEq, Eq, Hash, Structural)]
pub enum PhysicalPrimitive {
    Byte,
    Int32,
    Float32,
    Int64,
    Float64,
    PointerSize,
}

#[derive(Copy, Clone, Debug, PartialEq, Eq, Hash, Structural)]
pub enum PhysicalCollection {
    Array,
    Dict,
    String,
}

/// How a value lies in memory.
#[derive(Debug, PartialEq, Eq)]
pub enum PhysicalType {
    Primitive(PhysicalPrimitive),
    /// A value of a declared type, laid out as that type's layout says.
    Referenced(TypeID),
    /// A tag and then the value.
    Nullable(Box<PhysicalType>),
    FunctionPointer,
    Collection(PhysicalCollection),
    /// The function, the point at which to resume, and the stack.
    Generator,
}

/// What the generated code asks of the runtime.
#[derive(Copy, Clone, Debug, PartialEq, Eq, Hash, Structural)]
pub enum RuntimeFunction {
    Alloc,
    Memcpy,
    StringConcat,
}

/// Where the parts of a declared type lie.
#[derive(Debug)]
pub enum TypeLayoutValue {
    /// The fields in declaration order, each with its offset from the
    /// start of the value.
    Structure(Vec<(String, usize, PhysicalType)>),
    /// The methods in the order of the table that follows the pointer to
    /// the object.
    Interface(Vec<FunctionID>),
    /// The variants in declaration order, each with its tag and its
    /// payload if it has one.
    Union(Vec<(String, (usize, Option<PhysicalType>))>),
}

/// The layout of a declared type and the bytes that a value of it takes.
#[derive(Debug)]
pub struct DeclaredTypeLayout {
    pub value: TypeLayoutValue,
    pub size: usize,
}

impl DeclaredTypeLayout {
    pub fn size(&self) -> (s: usize)
        ensures
            s == self.size,
    {
        self.size
    }
}

impl PhysicalType {
    /// A copy of the type.
    pub fn duplicate(&self) -> (r: PhysicalType)
        ensures
            r == *self,
        decreases *self,
    {
        match self {
            PhysicalType::Primitive(p) => PhysicalType::Primitive(*p),
            PhysicalType::Referenced(id) => PhysicalType::Referenced(*id),
            PhysicalType::Nullable(inner) => PhysicalType::Nullable(Box::new(inner.duplicate())),
            PhysicalType::FunctionPointer => PhysicalType::FunctionPointer,
            PhysicalType::Collection(c) => PhysicalType::Collection(*c),
            PhysicalType::Generator => PhysicalType::Generator,
        }
    }
}

impl Clone for PhysicalType {
    fn clone(&self) -> (r: PhysicalType)
        ensures
            r == *self,
    {
        self.duplicate()
    }
}

pub open spec fn to_physical_primitive(p: PrimitiveType) -> PhysicalPrimitive {
    match p {
        PrimitiveType::Char => PhysicalPrimitive::Byte,
        PrimitiveType::Bool => PhysicalPrimitive::Byte,
        PrimitiveType::Int32 => PhysicalPrimitive::Int32,
        PrimitiveType::Float32 => PhysicalPrimitive::Float32,
        PrimitiveType::Int64 => PhysicalPrimitive::Int64,
        PrimitiveType::Float64 => PhysicalPrimitive::Float64,
        PrimitiveType::PointerSize => PhysicalPrimitive::PointerSize,
    }
}

/// How a primitive lies in memory: characters and booleans as one byte,
/// the others as themselves.
pub fn primitive_to_physical(p: PrimitiveType) -> (r: PhysicalPrimitive)
    ensures
        r == to_physical_primitive(p),
{
    match p {
        PrimitiveType::Char => PhysicalPrimitive::Byte,
        PrimitiveType::Bool => PhysicalPrimitive::Byte,
        PrimitiveType::Int32 => PhysicalPrimitive::Int32,
        PrimitiveType::Float32 => PhysicalPrimitive::Float32,
        PrimitiveType::Int64 => PhysicalPrimitive::Int64,
        PrimitiveType::Float64 => PhysicalPrimitive::Float64,
        PrimitiveType::PointerSize => PhysicalPrimitive::PointerSize,
    }
}

pub open spec fn primitive_size(prim: PhysicalPrimitive, byte_size: int, pointer_size: int) -> int {
    match prim {
        PhysicalPrimitive::Int32 => 4,
        PhysicalPrimitive::Float32 => 4,
        PhysicalPrimitive::Int64 => 8,
        PhysicalPrimitive::Float64 => 8,
        PhysicalPrimitive::Byte => byte_size,
        PhysicalPrimitive::PointerSize => pointer_size,
    }
}

/// The bytes that a primitive takes, on a machine where a byte-sized
/// value takes `byte_size` bytes and a pointer `pointer_size`.
pub fn primitive_type_size(prim: PhysicalPrimitive, byte_size: usize, pointer_size: usize) -> (r:
    usize)
    ensures
        r == primitive_size(prim, byte_size as int, pointer_size as int),
{
    match prim {
        PhysicalPrimitive::Int32 => 4,
        PhysicalPrimitive::Float32 => 4,
        PhysicalPrimitive::Int64 => 8,
        PhysicalPrimitive::Float64 => 8,
        PhysicalPrimitive::Byte => byte_size,
        PhysicalPrimitive::PointerSize => pointer_size,
    }
}

/// How a value of the type lies in memory. A pointer is an address, a
/// declared type is referred to by its identifier, a nullable wraps what
/// it holds. `None` for the types of which no value is ever stored: `Void`,
/// `Unreachable`, `Null`, types and functions as values, unbound generic
/// parameters, and the collections whose layout is not fixed here
/// (reference counters and cells).
pub open spec fn physical(ty: ExpressionType) -> Option<PhysicalType>
    decreases ty,
{
    match ty {
        ExpressionType::Primitive(p) => Some(PhysicalType::Primitive(to_physical_primitive(p))),
        ExpressionType::InstanceOf(id) => Some(PhysicalType::Referenced(id)),
        ExpressionType::Pointer(_, _) => Some(
            PhysicalType::Primitive(PhysicalPrimitive::PointerSize),
        ),
        ExpressionType::Collection(CollectionType::Array(_)) => Some(
            PhysicalType::Collection(PhysicalCollection::Array),
        ),
        ExpressionType::Collection(CollectionType::Dict(_, _)) => Some(
            PhysicalType::Collection(PhysicalCollection::Dict),
        ),
        ExpressionType::Collection(CollectionType::String) => Some(
            PhysicalType::Collection(PhysicalCollection::String),
        ),
        ExpressionType::Nullable(inner) => match physical(*inner) {
            Some(p) => Some(PhysicalType::Nullable(Box::new(p))),
            None => None,
        },
        ExpressionType::Generator { .. } => Some(PhysicalType::Generator),
        ExpressionType::FunctionReference { .. } => Some(PhysicalType::FunctionPointer),
        _ => None,
    }
}

/// How a value of the type lies in memory; see `physical`.
pub fn expr_ty_to_physical(ty: &ExpressionType) -> (r: Option<PhysicalType>)
    ensures
        r == physical(*ty),
    decreases *ty,
{
    match ty {
        ExpressionType::Primitive(p) => Some(PhysicalType::Primitive(primitive_to_physical(*p))),
        ExpressionType::InstanceOf(id) => Some(PhysicalType::Referenced(*id)),
        ExpressionType::Pointer(_, _) => Some(
            PhysicalType::Primitive(PhysicalPrimitive::PointerSize),
        ),
        ExpressionType::Collection(CollectionType::Array(_)) => Some(
            PhysicalType::Collection(PhysicalCollection::Array),
        ),
        ExpressionType::Collection(CollectionType::Dict(_, _)) => Some(
            PhysicalType::Collection(PhysicalCollection::Dict),
        ),
        ExpressionType::Collection(CollectionType::String) => Some(
            PhysicalType::Collection(PhysicalCollection::String),
        ),
        ExpressionType::Nullable(inner) => match expr_ty_to_physical(inner) {
            Some(p) => Some(PhysicalType::Nullable(Box::new(p))),
            None => None,
        },
        ExpressionType::Generator { .. } => Some(PhysicalType::Generator),
        ExpressionType::FunctionReference { .. } => Some(PhysicalType::FunctionPointer),
        _ => None,
    }
}

/// The position of the first layout recorded for `id`.
pub open spec fn layout_index(layouts: Seq<(TypeID, DeclaredTypeLayout)>, id: TypeID) -> Option<
    int,
>
    decreases layouts.len(),
{
    if layouts.len() == 0 {
        None
    } else if layouts[0].0 == id {
        Some(0int)
    } else {
        match layout_index(layouts.skip(1), id) {
            Some(i) => Some(i + 1),
            None => None,
        }
    }
}

/// `layout_index` finds the first layout recorded for `id` and no other.
pub proof fn lemma_layout_index(layouts: Seq<(TypeID, DeclaredTypeLayout)>, id: TypeID)
    ensures
        match layout_index(layouts, id) {
            Some(i) => 0 <= i < layouts.len() && layouts[i].0 == id && forall|k: int|
                0 <= k < i ==> layouts[k].0 != id,
            None => forall|k: int| 0 <= k < layouts.len() ==> layouts[k].0 != id,
        },
    decreases layouts.len(),
{
    if layouts.len() > 0 && layouts[0].0 != id {
        let rest = layouts.skip(1);
        lemma_layout_index(rest, id);
        assert forall|k: int| 0 < k < layouts.len() implies layouts[k] == rest[k - 1] by {}
    }
}

/// The layout recorded for `id`, if there is one.
pub fn find_layout(layouts: &Vec<(TypeID, DeclaredTypeLayout)>, id: TypeID) -> (r: Option<usize>)
    ensures
        match r {
            Some(i) => layout_index(layouts@, id) == Some(i as int) && i < layouts@.len(),
            None => layout_index(layouts@, id).is_none(),
        },
{
    let mut i: usize = 0;
    while i < layouts.len()
        invariant
            0 <= i <= layouts.len(),
            forall|k: int| 0 <= k < i ==> layouts@[k].0 != id,
        decreases layouts.len() - i,
    {
        if layouts[i].0 == id {
            proof {
                lemma_layout_index(layouts@, id);
            }
            return Some(i);
        }
        i = i + 1;
    }
    proof {
        lemma_layout_index(layouts@, id);
    }
    None
}

/// The bytes that a value of the physical type takes. A declared type
/// takes what its recorded layout says, and has no size while no layout is
/// recorded for it. A nullable takes a tag of one pointer and then what it
/// holds; arrays and dictionaries take three pointers (buffer, length,
/// capacity), strings two (length, pointer), generators three.
pub open spec fn size_of(
    ty: PhysicalType,
    layouts: Seq<(TypeID, DeclaredTypeLayout)>,
    byte_size: int,
    pointer_size: int,
) -> Option<int>
    decreases ty,
{
    match ty {
        PhysicalType::Primitive(p) => Some(primitive_size(p, byte_size, pointer_size)),
        PhysicalType::Referenced(id) => match layout_index(layouts, id) {
            Some(i) => Some(layouts[i].1.size as int),
            None => None,
        },
        PhysicalType::Nullable(inner) => match size_of(*inner, layouts, byte_size, pointer_size) {
            Some(n) => Some(NULL_TAG_POINTERS * pointer_size + n),
            None => None,
        },
        PhysicalType::FunctionPointer => Some(FUNCTION_ID_SIZE as int),
        PhysicalType::Collection(PhysicalCollection::Array) => Some(pointer_size * 3),
        PhysicalType::Collection(PhysicalCollection::Dict) => Some(pointer_size * 3),
        PhysicalType::Collection(PhysicalCollection::String) => Some(pointer_size * 2),
        PhysicalType::Generator => Some(pointer_size * 3),
    }
}

/// A size as the machine holds it: none when it is unknown or does not fit
/// the machine word.
pub open spec fn fitting(n: Option<int>) -> Option<usize> {
    match n {
        Some(n) => if 0 <= n <= usize::MAX {
            Some(n as usize)
        } else {
            None
        },
        None => None,
    }
}

/// No size is negative.
pub proof fn lemma_size_of_nonnegative(
    ty: PhysicalType,
    layouts: Seq<(TypeID, DeclaredTypeLayout)>,
    byte_size: int,
    pointer_size: int,
)
    requires
        byte_size >= 0,
        pointer_size >= 0,
    ensures
        size_of(ty, layouts, byte_size, pointer_size) matches Some(n) ==> n >= 0,
    decreases ty,
{
    match ty {
        PhysicalType::Nullable(inner) => {
            lemma_size_of_nonnegative(*inner, layouts, byte_size, pointer_size);
        },
        PhysicalType::Referenced(id) => {
            lemma_layout_index(layouts, id);
        },
        _ => {},
    }
}

impl PhysicalType {
    /// The bytes that a value of the type takes, given the layouts that are
    /// recorded; see `size_of`. `None` when a declared type that it refers
    /// to has no layout yet, or the size does not fit the machine word.
    pub fn size_from_decls(
        &self,
        declarations: &Vec<(TypeID, DeclaredTypeLayout)>,
        byte_size: usize,
        pointer_size: usize,
    ) -> (r: Option<usize>)
        ensures
            r == fitting(size_of(*self, declarations@, byte_size as int, pointer_size as int)),
        decreases *self,
    {
        proof {
            lemma_size_of_nonnegative(
                *self,
                declarations@,
                byte_size as int,
                pointer_size as int,
            );
        }
        match self {
            PhysicalType::Primitive(p) => Some(primitive_type_size(*p, byte_size, pointer_size)),
            PhysicalType::Referenced(id) => match find_layout(declarations, *id) {
                Some(i) => Some(declarations[i].1.size()),
                None => None,
            },
            PhysicalType::Nullable(inner) => {
                proof {
                    lemma_size_of_nonnegative(
                        **inner,
                        declarations@,
                        byte_size as int,
                        pointer_size as int,
                    );
                }
                match inner.size_from_decls(declarations, byte_size, pointer_size) {
                    Some(n) => pointer_size.checked_add(n),
                    None => None,
                }
            },
            PhysicalType::FunctionPointer => Some(FUNCTION_ID_SIZE),
            PhysicalType::Collection(PhysicalCollection::Array) => pointer_size.checked_mul(3),
            PhysicalType::Collection(PhysicalCollection::Dict) => pointer_size.checked_mul(3),
            PhysicalType::Collection(PhysicalCollection::String) => pointer_size.checked_mul(2),
            PhysicalType::Generator => pointer_size.checked_mul(3),
        }
    }
}

/// The recorded layouts.
pub type Layouts = Seq<(TypeID, DeclaredTypeLayout)>;

/// The bytes that a value of the type takes, if values of it are stored
/// and every declared type that it refers to has a layout.
pub open spec fn stored_size(
    ty: ExpressionType,
    layouts: Layouts,
    byte_size: int,
    pointer_size: int,
) -> Option<int> {
    match physical(ty) {
        Some(p) => size_of(p, layouts, byte_size, pointer_size),
        None => None,
    }
}

/// The sum of the sizes of the first `n` fields; none if one of them has
/// no size.
pub open spec fn fields_size(
    fields: Seq<(String, ExpressionType)>,
    n: int,
    layouts: Layouts,
    byte_size: int,
    pointer_size: int,
) -> Option<int>
    decreases n,
{
    if n <= 0 {
        Some(0int)
    } else {
        match (
            fields_size(fields, n - 1, layouts, byte_size, pointer_size),
            stored_size(fields[n - 1].1, layouts, byte_size, pointer_size),
        ) {
            (Some(before), Some(size)) => Some(before + size),
            _ => None,
        }
    }
}

/// The bytes that the payload of a variant takes: nothing where the
/// variant has none.
pub open spec fn payload_size(
    payload: Option<ExpressionType>,
    layouts: Layouts,
    byte_size: int,
    pointer_size: int,
) -> Option<int> {
    match payload {
        Some(ty) => stored_size(ty, layouts, byte_size, pointer_size),
        None => Some(0int),
    }
}

/// The largest payload size among the first `n` variants; none if one of
/// them has a payload without a size.
pub open spec fn largest_payload(
    variants: Seq<(String, Option<ExpressionType>)>,
    n: int,
    layouts: Layouts,
    byte_size: int,
    pointer_size: int,
) -> Option<int>
    decreases n,
{
    if n <= 0 {
        Some(0int)
    } else {
        match (
            largest_payload(variants, n - 1, layouts, byte_size, pointer_size),
            payload_size(variants[n - 1].1, layouts, byte_size, pointer_size),
        ) {
            (Some(largest), Some(size)) => Some(
                if size > largest {
                    size
                } else {
                    largest
                },
            ),
            _ => None,
        }
    }
}

/// The physical type of a payload, where the variant has one.
pub open spec fn physical_payload(payload: Option<ExpressionType>) -> Option<PhysicalType> {
    match payload {
        Some(ty) => physical(ty),
        None => None,
    }
}

/// Whether `layout` lays the struct out: the fields in declaration order,
/// each right after the one before it, and the size their sum.
pub open spec fn is_struct_layout(
    st: StructType,
    layout: DeclaredTypeLayout,
    layouts: Layouts,
    byte_size: int,
    pointer_size: int,
) -> bool {
    &&& layout.value matches TypeLayoutValue::Structure(parts)
    &&& parts@.len() == st.fields@.len()
    &&& forall|i: int|
        #![trigger parts@[i]]
        0 <= i < parts@.len() ==> {
            &&& parts@[i].0@ == st.fields@[i].0@
            &&& Some(parts@[i].2) == physical(st.fields@[i].1)
            &&& Some(parts@[i].1 as int) == fields_size(
                st.fields@,
                i,
                layouts,
                byte_size,
                pointer_size,
            )
        }
    &&& Some(layout.size as int) == fields_size(
        st.fields@,
        st.fields@.len() as int,
        layouts,
        byte_size,
        pointer_size,
    )
}

/// Whether `layout` lays the union out: the variants in declaration
/// order, each tagged with its position, and the size that of the tag and
/// of the largest payload.
pub open spec fn is_union_layout(
    un: UnionType,
    layout: DeclaredTypeLayout,
    layouts: Layouts,
    byte_size: int,
    pointer_size: int,
) -> bool {
    &&& layout.value matches TypeLayoutValue::Union(parts)
    &&& parts@.len() == un.variants@.len()
    &&& forall|i: int|
        #![trigger parts@[i]]
        0 <= i < parts@.len() ==> {
            &&& parts@[i].0@ == un.variants@[i].0@
            &&& parts@[i].1.0 == i
            &&& parts@[i].1.1 == physical_payload(un.variants@[i].1)
        }
    &&& match largest_payload(
        un.variants@,
        un.variants@.len() as int,
        layouts,
        byte_size,
        pointer_size,
    ) {
        Some(largest) => layout.size == UNION_TAG_POINTERS * pointer_size + largest,
        None => false,
    }
}

/// Whether `layout` lays the interface out: a pointer to the object and
/// then one function identifier for each method, in declaration order.
pub open spec fn is_interface_layout(
    it: InterfaceType,
    layout: DeclaredTypeLayout,
    pointer_size: int,
) -> bool {
    &&& layout.value matches TypeLayoutValue::Interface(table)
    &&& table@.len() == it.associated_functions@.len()
    &&& forall|i: int|
        #![trigger table@[i]]
        0 <= i < table@.len() ==> table@[i] == it.associated_functions@[i].1
    &&& layout.size == pointer_size + FUNCTION_ID_SIZE * it.associated_functions@.len()
}

/// Whether `layout` lays the declared type out, given the layouts of the
/// types that it refers to. A module has no layout.
pub open spec fn is_layout_of(
    decl: TypeDeclaration,
    layout: DeclaredTypeLayout,
    layouts: Layouts,
    byte_size: int,
    pointer_size: int,
) -> bool {
    match decl {
        TypeDeclaration::Struct(st) => is_struct_layout(
            st,
            layout,
            layouts,
            byte_size,
            pointer_size,
        ),
        TypeDeclaration::Union(un) => is_union_layout(un, layout, layouts, byte_size, pointer_size),
        TypeDeclaration::Interface(it) => is_interface_layout(it, layout, pointer_size),
        TypeDeclaration::Module(_) => false,
    }
}

/// The size that the layout of the declared type would have, given the
/// layouts of the types that it refers to.
pub open spec fn declared_size(
    decl: TypeDeclaration,
    layouts: Layouts,
    byte_size: int,
    pointer_size: int,
) -> Option<int> {
    match decl {
        TypeDeclaration::Struct(st) => fields_size(
            st.fields@,
            st.fields@.len() as int,
            layouts,
            byte_size,
            pointer_size,
        ),
        TypeDeclaration::Union(un) => match largest_payload(
            un.variants@,
            un.variants@.len() as int,
            layouts,
            byte_size,
            pointer_size,
        ) {
            Some(largest) => Some(UNION_TAG_POINTERS * pointer_size + largest),
            None => None,
        },
        TypeDeclaration::Interface(it) => Some(
            pointer_size + FUNCTION_ID_SIZE * it.associated_functions@.len(),
        ),
        TypeDeclaration::Module(_) => None,
    }
}

/// No stored size is negative.
pub proof fn lemma_stored_size_nonnegative(
    ty: ExpressionType,
    layouts: Layouts,
    byte_size: int,
    pointer_size: int,
)
    requires
        byte_size >= 0,
        pointer_size >= 0,
    ensures
        stored_size(ty, layouts, byte_size, pointer_size) matches Some(n) ==> n >= 0,
{
    match physical(ty) {
        Some(p) => lemma_size_of_nonnegative(p, layouts, byte_size, pointer_size),
        None => {},
    }
}

/// No sum of field sizes is negative.
pub proof fn lemma_fields_size_nonnegative(
    fields: Seq<(String, ExpressionType)>,
    n: int,
    layouts: Layouts,
    byte_size: int,
    pointer_size: int,
)
    requires
        byte_size >= 0,
        pointer_size >= 0,
    ensures
        fields_size(fields, n, layouts, byte_size, pointer_size) matches Some(total) ==> total
            >= 0,
    decreases n,
{
    if n > 0 {
        lemma_fields_size_nonnegative(fields, n - 1, layouts, byte_size, pointer_size);
        lemma_stored_size_nonnegative(fields[n - 1].1, layouts, byte_size, pointer_size);
    }
}

/// No largest payload is negative.
pub proof fn lemma_largest_payload_nonnegative(
    variants: Seq<(String, Option<ExpressionType>)>,
    n: int,
    layouts: Layouts,
    byte_size: int,
    pointer_size: int,
)
    ensures
        largest_payload(variants, n, layouts, byte_size, pointer_size) matches Some(total)
            ==> total >= 0,
    decreases n,
{
    if n > 0 {
        lemma_largest_payload_nonnegative(variants, n - 1, layouts, byte_size, pointer_size);
    }
}

/// The sum over more fields is defined only if the sum over fewer is, and
/// is no smaller.
pub proof fn lemma_fields_size_monotone(
    fields: Seq<(String, ExpressionType)>,
    k: int,
    n: int,
    layouts: Layouts,
    byte_size: int,
    pointer_size: int,
)
    requires
        0 <= k <= n,
        byte_size >= 0,
        pointer_size >= 0,
    ensures
        fields_size(fields, n, layouts, byte_size, pointer_size) matches Some(total) ==> (
        fields_size(fields, k, layouts, byte_size, pointer_size) matches Some(part) && 0 <= part
            <= total),
    decreases n - k,
{
    if k < n {
        lemma_fields_size_monotone(fields, k, n - 1, layouts, byte_size, pointer_size);
        lemma_stored_size_nonnegative(fields[n - 1].1, layouts, byte_size, pointer_size);
    } else {
        lemma_fields_size_nonnegative(fields, n, layouts, byte_size, pointer_size);
    }
}

/// The largest payload over more variants is defined only if it is over
/// fewer, and is no smaller.
pub proof fn lemma_largest_payload_monotone(
    variants: Seq<(String, Option<ExpressionType>)>,
    k: int,
    n: int,
    layouts: Layouts,
    byte_size: int,
    pointer_size: int,
)
    requires
        0 <= k <= n,
    ensures
        largest_payload(variants, n, layouts, byte_size, pointer_size) matches Some(total) ==> (
        largest_payload(variants, k, layouts, byte_size, pointer_size) matches Some(part) && 0
            <= part <= total),
    decreases n - k,
{
    if k < n {
        lemma_largest_payload_monotone(variants, k, n - 1, layouts, byte_size, pointer_size);
    } else {
        lemma_largest_payload_nonnegative(variants, n, layouts, byte_size, pointer_size);
    }
}

/// The size of a union is that of its tag and of its largest payload: no
/// payload is larger than the rest of the union, and unless no variant
/// has a payload that takes room, one payload fills it.
pub proof fn lemma_union_size_is_tag_and_largest_payload(
    un: UnionType,
    layout: DeclaredTypeLayout,
    layouts: Layouts,
    byte_size: int,
    pointer_size: int,
)
    requires
        is_union_layout(un, layout, layouts, byte_size, pointer_size),
    ensures
        forall|i: int|
            0 <= i < un.variants@.len() ==> ((#[trigger] payload_size(
                un.variants@[i].1,
                layouts,
                byte_size,
                pointer_size,
            )) matches Some(size) && UNION_TAG_POINTERS * pointer_size + size <= layout.size),
        layout.size == UNION_TAG_POINTERS * pointer_size || exists|i: int|
            0 <= i < un.variants@.len() && #[trigger] payload_size(
                un.variants@[i].1,
                layouts,
                byte_size,
                pointer_size,
            ) == Some(layout.size - UNION_TAG_POINTERS * pointer_size),
{
    lemma_largest_bounds(un.variants@, un.variants@.len() as int, layouts, byte_size, pointer_size);
}

/// The largest payload among the first `n` variants is no smaller than
/// any of them, and is one of them unless it is zero.
pub proof fn lemma_largest_bounds(
    variants: Seq<(String, Option<ExpressionType>)>,
    n: int,
    layouts: Layouts,
    byte_size: int,
    pointer_size: int,
)
    requires
        0 <= n <= variants.len(),
        largest_payload(variants, n, layouts, byte_size, pointer_size).is_some(),
    ensures
        forall|i: int|
            0 <= i < n ==> ((#[trigger] payload_size(
                variants[i].1,
                layouts,
                byte_size,
                pointer_size,
            )) matches Some(size) && size <= largest_payload(
                variants,
                n,
                layouts,
                byte_size,
                pointer_size,
            ).unwrap()),
        largest_payload(variants, n, layouts, byte_size, pointer_size) == Some(0int) || exists|
            i: int,
        |
            0 <= i < n && #[trigger] payload_size(
                variants[i].1,
                layouts,
                byte_size,
                pointer_size,
            ) == largest_payload(variants, n, layouts, byte_size, pointer_size),
    decreases n,
{
    if n > 0 {
        lemma_largest_bounds(variants, n - 1, layouts, byte_size, pointer_size);
        let now = largest_payload(variants, n, layouts, byte_size, pointer_size);
        let before = largest_payload(variants, n - 1, layouts, byte_size, pointer_size);
        if now != Some(0int) {
            if now == before {
                let i = choose|i: int|
                    0 <= i < n - 1 && #[trigger] payload_size(
                        variants[i].1,
                        layouts,
                        byte_size,
                        pointer_size,
                    ) == before;
                assert(0 <= i < n && payload_size(
                    variants[i].1,
                    layouts,
                    byte_size,
                    pointer_size,
                ) == now);
            } else {
                assert(payload_size(variants[n - 1].1, layouts, byte_size, pointer_size) == now);
            }
        }
    }
}

/// The size of a struct is the sum of the sizes of its fields, and each
/// field lies where the fields before it end.
pub proof fn lemma_struct_size_is_sum_of_fields(
    st: StructType,
    layout: DeclaredTypeLayout,
    layouts: Layouts,
    byte_size: int,
    pointer_size: int,
    i: int,
)
    requires
        is_struct_layout(st, layout, layouts, byte_size, pointer_size),
        0 <= i < st.fields@.len(),
        byte_size >= 0,
        pointer_size >= 0,
    ensures
        layout.value matches TypeLayoutValue::Structure(parts) && stored_size(
            st.fields@[i].1,
            layouts,
            byte_size,
            pointer_size,
        ) matches Some(size) && parts@[i].1 + size <= layout.size && (i + 1 < st.fields@.len()
            ==> parts@[i + 1].1 == parts@[i].1 + size) && (i + 1 == st.fields@.len()
            ==> layout.size == parts@[i].1 + size),
{
    let n = st.fields@.len() as int;
    lemma_fields_size_monotone(st.fields@, i + 1, n, layouts, byte_size, pointer_size);
    match layout.value {
        TypeLayoutValue::Structure(parts) => {
            assert(Some(parts@[i].1 as int) == fields_size(
                st.fields@,
                i,
                layouts,
                byte_size,
                pointer_size,
            ));
            if i + 1 < n {
                assert(Some(parts@[i + 1].1 as int) == fields_size(
                    st.fields@,
                    i + 1,
                    layouts,
                    byte_size,
                    pointer_size,
                ));
            }
        },
        _ => {},
    }
}

/// How a value of the type lies in memory and the bytes it takes, given
/// the recorded layouts. `None` when values of the type are not stored, a
/// declared type that it refers to has no layout yet, or the size does not
/// fit the machine word.
pub fn layout_type(
    layouts: &Vec<(TypeID, DeclaredTypeLayout)>,
    ty: &ExpressionType,
    byte_size: usize,
    pointer_size: usize,
) -> (r: Option<(PhysicalType, usize)>)
    ensures
        match r {
            Some((p, n)) => physical(*ty) == Some(p) && fitting(
                stored_size(*ty, layouts@, byte_size as int, pointer_size as int),
            ) == Some(n),
            None => fitting(
                stored_size(*ty, layouts@, byte_size as int, pointer_size as int),
            ).is_none(),
        },
{
    match expr_ty_to_physical(ty) {
        Some(p) => match p.size_from_decls(layouts, byte_size, pointer_size) {
            Some(n) => Some((p, n)),
            None => None,
        },
        None => None,
    }
}

/// Lays a struct out: the fields in declaration order, each right after
/// the one before it. `None` when a field has no size or the struct does
/// not fit the machine word.
pub fn layout_struct(
    layouts: &Vec<(TypeID, DeclaredTypeLayout)>,
    st: &StructType,
    byte_size: usize,
    pointer_size: usize,
) -> (r: Option<DeclaredTypeLayout>)
    ensures
        r.is_some() == fitting(
            declared_size(
                TypeDeclaration::Struct(*st),
                layouts@,
                byte_size as int,
                pointer_size as int,
            ),
        ).is_some(),
        r matches Some(layout) ==> is_struct_layout(
            *st,
            layout,
            layouts@,
            byte_size as int,
            pointer_size as int,
        ),
{
    let ghost b = byte_size as int;
    let ghost p = pointer_size as int;
    let ghost n = st.fields@.len() as int;
    let mut parts: Vec<(String, usize, PhysicalType)> = Vec::new();
    let mut size: usize = 0;
    let mut i: usize = 0;
    while i < st.fields.len()
        invariant
            0 <= i <= st.fields@.len(),
            n == st.fields@.len(),
            b == byte_size,
            p == pointer_size,
            parts@.len() == i,
            fields_size(st.fields@, i as int, layouts@, b, p) == Some(size as int),
            forall|k: int|
                #![trigger parts@[k]]
                0 <= k < i ==> {
                    &&& parts@[k].0@ == st.fields@[k].0@
                    &&& Some(parts@[k].2) == physical(st.fields@[k].1)
                    &&& Some(parts@[k].1 as int) == fields_size(st.fields@, k, layouts@, b, p)
                },
        decreases st.fields@.len() - i,
    {
        proof {
            lemma_fields_size_monotone(st.fields@, i + 1, n, layouts@, b, p);
            lemma_stored_size_nonnegative(st.fields@[i as int].1, layouts@, b, p);
        }
        match layout_type(layouts, &st.fields[i].1, byte_size, pointer_size) {
            None => {
                return None;
            },
            Some((physical_ty, field_size)) => match size.checked_add(field_size) {
                None => {
                    return None;
                },
                Some(total) => {
                    parts.push((st.fields[i].0.clone(), size, physical_ty));
                    size = total;
                },
            },
        }
        i = i + 1;
    }
    Some(DeclaredTypeLayout { value: TypeLayoutValue::Structure(parts), size })
}

/// Lays a union out: a tag of one pointer, then room for the largest
/// payload; each variant is tagged with its position. `None` when a
/// payload has no size or the union does not fit the machine word.
pub fn layout_union(
    layouts: &Vec<(TypeID, DeclaredTypeLayout)>,
    un: &UnionType,
    byte_size: usize,
    pointer_size: usize,
) -> (r: Option<DeclaredTypeLayout>)
    ensures
        r.is_some() == fitting(
            declared_size(
                TypeDeclaration::Union(*un),
                layouts@,
                byte_size as int,
                pointer_size as int,
            ),
        ).is_some(),
        r matches Some(layout) ==> is_union_layout(
            *un,
            layout,
            layouts@,
            byte_size as int,
            pointer_size as int,
        ),
{
    let ghost b = byte_size as int;
    let ghost p = pointer_size as int;
    let ghost n = un.variants@.len() as int;
    let mut parts: Vec<(String, (usize, Option<PhysicalType>))> = Vec::new();
    let mut largest: usize = 0;
    let mut i: usize = 0;
    while i < un.variants.len()
        invariant
            0 <= i <= un.variants@.len(),
            n == un.variants@.len(),
            b == byte_size,
            p == pointer_size,
            parts@.len() == i,
            largest_payload(un.variants@, i as int, layouts@, b, p) == Some(largest as int),
            forall|k: int|
                #![trigger parts@[k]]
                0 <= k < i ==> {
                    &&& parts@[k].0@ == un.variants@[k].0@
                    &&& parts@[k].1.0 == k
                    &&& parts@[k].1.1 == physical_payload(un.variants@[k].1)
                },
        decreases un.variants@.len() - i,
    {
        proof {
            lemma_largest_payload_monotone(un.variants@, i + 1, n, layouts@, b, p);
            if un.variants@[i as int].1 is Some {
                lemma_stored_size_nonnegative(un.variants@[i as int].1.unwrap(), layouts@, b, p);
            }
        }
        match &un.variants[i].1 {
            None => {
                parts.push((un.variants[i].0.clone(), (i, None)));
            },
            Some(ty) => match layout_type(layouts, ty, byte_size, pointer_size) {
                None => {
                    return None;
                },
                Some((physical_ty, payload)) => {
                    if payload > largest {
                        largest = payload;
                    }
                    parts.push((un.variants[i].0.clone(), (i, Some(physical_ty))));
                },
            },
        }
        i = i + 1;
    }
    match pointer_size.checked_add(largest) {
        Some(size) => Some(DeclaredTypeLayout { value: TypeLayoutValue::Union(parts), size }),
        None => None,
    }
}

/// Lays an interface out: a pointer to the object, then one function
/// identifier for each method, in declaration order. `None` when that does
/// not fit the machine word.
pub fn layout_interface(it: &InterfaceType, pointer_size: usize) -> (r: Option<
    DeclaredTypeLayout,
>)
    ensures
        r.is_some() == (pointer_size + FUNCTION_ID_SIZE * it.associated_functions@.len()
            <= usize::MAX),
        r matches Some(layout) ==> is_interface_layout(*it, layout, pointer_size as int),
{
    let mut table: Vec<FunctionID> = Vec::new();
    let mut i: usize = 0;
    while i < it.associated_functions.len()
        invariant
            0 <= i <= it.associated_functions@.len(),
            table@.len() == i,
            forall|k: int|
                #![trigger table@[k]]
                0 <= k < i ==> table@[k] == it.associated_functions@[k].1,
        decreases it.associated_functions@.len() - i,
    {
        table.push(it.associated_functions[i].1);
        i = i + 1;
    }
    match FUNCTION_ID_SIZE.checked_mul(it.associated_functions.len()) {
        Some(methods) => match pointer_size.checked_add(methods) {
            Some(size) => Some(
                DeclaredTypeLayout { value: TypeLayoutValue::Interface(table), size },
            ),
            None => None,
        },
        None => None,
    }
}

/// Lays a declared type out, given the layouts of the types that it
/// refers to. `None` for a module, which has no layout, and where
/// `declared_size` has none or one that does not fit the machine word.
pub fn layout_static_decl(
    layouts: &Vec<(TypeID, DeclaredTypeLayout)>,
    decl: &TypeDeclaration,
    byte_size: usize,
    pointer_size: usize,
) -> (r: Option<DeclaredTypeLayout>)
    ensures
        r.is_some() == fitting(
            declared_size(*decl, layouts@, byte_size as int, pointer_size as int),
        ).is_some(),
        r matches Some(layout) ==> is_layout_of(
            *decl,
            layout,
            layouts@,
            byte_size as int,
            pointer_size as int,
        ) && Some(layout.size as int) == declared_size(
            *decl,
            layouts@,
            byte_size as int,
            pointer_size as int,
        ),
{
    match decl {
        TypeDeclaration::Struct(st) => layout_struct(layouts, st, byte_size, pointer_size),
        TypeDeclaration::Union(un) => layout_union(layouts, un, byte_size, pointer_size),
        TypeDeclaration::Interface(it) => layout_interface(it, pointer_size),
        TypeDeclaration::Module(_) => None,
    }
}

/// How many entries are `false`.
pub open spec fn count_false(s: Seq<bool>) -> nat
    decreases s.len(),
{
    if s.len() == 0 {
        0
    } else {
        count_false(s.drop_last()) + if s.last() {
            0nat
        } else {
            1nat
        }
    }
}

/// Setting one `false` entry to `true` leaves one fewer.
pub proof fn lemma_count_false_update(s: Seq<bool>, j: int)
    requires
        0 <= j < s.len(),
        !s[j],
    ensures
        count_false(s.update(j, true)) + 1 == count_false(s),
    decreases s.len(),
{
    let t = s.update(j, true);
    if j == s.len() - 1 {
        assert(t.drop_last() =~= s.drop_last());
    } else {
        lemma_count_false_update(s.drop_last(), j);
        assert(t.drop_last() =~= s.drop_last().update(j, true));
    }
}

/// Whether the entry at `k` is the layout of one of the declarations,
/// computed from the entries before it, none of which is for the same
/// type.
pub open spec fn entry_valid(
    declarations: Seq<TypeDeclaration>,
    layouts: Layouts,
    k: int,
    byte_size: int,
    pointer_size: int,
) -> bool {
    &&& layout_index(layouts.subrange(0, k), layouts[k].0).is_none()
    &&& exists|j: int|
        #![trigger declarations[j]]
        0 <= j < declarations.len() && declarations[j].spec_id() == layouts[k].0 && is_layout_of(
            declarations[j],
            layouts[k].1,
            layouts.subrange(0, k),
            byte_size,
            pointer_size,
        )
}

/// What is recorded for a type stays what it is when a layout is added.
pub proof fn lemma_layout_index_push(
    layouts: Layouts,
    entry: (TypeID, DeclaredTypeLayout),
    id: TypeID,
)
    ensures
        layout_index(layouts, id).is_some() ==> layout_index(layouts.push(entry), id)
            == layout_index(layouts, id),
        layout_index(layouts, id).is_none() && entry.0 == id ==> layout_index(
            layouts.push(entry),
            id,
        ) == Some(layouts.len() as int),
        layout_index(layouts, id).is_none() && entry.0 != id ==> layout_index(
            layouts.push(entry),
            id,
        ).is_none(),
{
    let pushed = layouts.push(entry);
    lemma_layout_index(layouts, id);
    lemma_layout_index(pushed, id);
    assert forall|k: int| 0 <= k < layouts.len() implies pushed[k] == layouts[k] by {}
    assert(pushed[layouts.len() as int] == entry);
}

/// Lays out every declared type that can be laid out, and records each
/// layout under the type's identifier, after the layouts that were there.
///
/// A type is laid out once the types that it holds by value have their
/// layouts, so the work goes round until a round adds nothing. What was
/// recorded stays. Each layout added is that of one of the declarations,
/// computed from the layouts before it. At the end every declared type
/// but a module either has a layout or cannot have one: it holds a type
/// without a layout (itself, perhaps, by way of others), a type of which
/// no value is stored, or is too large. The result says whether every
/// one has a layout.
pub fn layout_types(
    declarations: &Vec<TypeDeclaration>,
    layouts: &mut Vec<(TypeID, DeclaredTypeLayout)>,
    byte_size: usize,
    pointer_size: usize,
) -> (complete: bool)
    ensures
        old(layouts)@.len() <= final(layouts)@.len(),
        final(layouts)@.subrange(0, old(layouts)@.len() as int) == old(layouts)@,
        forall|k: int|
            old(layouts)@.len() <= k < final(layouts)@.len() ==> #[trigger] entry_valid(
                declarations@,
                final(layouts)@,
                k,
                byte_size as int,
                pointer_size as int,
            ),
        forall|j: int|
            #![trigger declarations@[j]]
            0 <= j < declarations@.len() && !(declarations@[j] is Module) ==> layout_index(
                final(layouts)@,
                declarations@[j].spec_id(),
            ).is_some() || fitting(
                declared_size(
                    declarations@[j],
                    final(layouts)@,
                    byte_size as int,
                    pointer_size as int,
                ),
            ).is_none(),
        complete == (forall|j: int|
            #![trigger declarations@[j]]
            0 <= j < declarations@.len() && !(declarations@[j] is Module) ==> layout_index(
                final(layouts)@,
                declarations@[j].spec_id(),
            ).is_some()),
{
    let ghost b = byte_size as int;
    let ghost p = pointer_size as int;
    let ghost start = layouts@;
    let n: usize = declarations.len();
    let mut done: Vec<bool> = Vec::new();
    let mut i: usize = 0;
    while i < n
        invariant
            0 <= i <= n,
            done@.len() == i,
            forall|k: int| 0 <= k < i ==> !done@[k],
        decreases n - i,
    {
        done.push(false);
        i = i + 1;
    }
    assert(layouts@.subrange(0, start.len() as int) =~= start);
    loop
        invariant_except_break
            true,
        invariant
            n == declarations@.len(),
            done@.len() == n,
            b == byte_size,
            p == pointer_size,
            start.len() <= layouts@.len(),
            layouts@.subrange(0, start.len() as int) == start,
            forall|k: int|
                start.len() <= k < layouts@.len() ==> #[trigger] entry_valid(
                    declarations@,
                    layouts@,
                    k,
                    b,
                    p,
                ),
            forall|j: int|
                #![trigger declarations@[j]]
                0 <= j < n && done@[j] ==> declarations@[j] is Module || layout_index(
                    layouts@,
                    declarations@[j].spec_id(),
                ).is_some(),
        ensures
            forall|j: int|
                #![trigger declarations@[j]]
                0 <= j < n && !done@[j] ==> !(declarations@[j] is Module) && layout_index(
                    layouts@,
                    declarations@[j].spec_id(),
                ).is_none() && fitting(declared_size(declarations@[j], layouts@, b, p)).is_none(),
        decreases count_false(done@),
    {
        let ghost before = done@;
        let mut progress = false;
        let mut j: usize = 0;
        while j < n
            invariant
                0 <= j <= n,
                n == declarations@.len(),
                done@.len() == n,
                b == byte_size,
                p == pointer_size,
                start.len() <= layouts@.len(),
                layouts@.subrange(0, start.len() as int) == start,
                forall|k: int|
                    start.len() <= k < layouts@.len() ==> #[trigger] entry_valid(
                        declarations@,
                        layouts@,
                        k,
                        b,
                        p,
                    ),
                forall|k: int|
                    #![trigger declarations@[k]]
                    0 <= k < n && done@[k] ==> declarations@[k] is Module || layout_index(
                        layouts@,
                        declarations@[k].spec_id(),
                    ).is_some(),
                count_false(done@) <= count_false(before),
                progress ==> count_false(done@) < count_false(before),
                !progress ==> forall|k: int|
                    #![trigger declarations@[k]]
                    0 <= k < j && !done@[k] ==> !(declarations@[k] is Module) && layout_index(
                        layouts@,
                        declarations@[k].spec_id(),
                    ).is_none() && fitting(
                        declared_size(declarations@[k], layouts@, b, p),
                    ).is_none(),
            decreases n - j,
        {
            if !done[j] {
                let decl = &declarations[j];
                let id = decl.id();
                let is_module = match decl {
                    TypeDeclaration::Module(_) => true,
                    _ => false,
                };
                if is_module || find_layout(layouts, id).is_some() {
                    proof {
                        lemma_count_false_update(done@, j as int);
                    }
                    done.set(j, true);
                    progress = true;
                } else {
                    match layout_static_decl(layouts, decl, byte_size, pointer_size) {
                        Some(layout) => {
                            let ghost earlier = layouts@;
                            let ghost entry = (id, layout);
                            proof {
                                lemma_count_false_update(done@, j as int);
                                assert forall|k: int|
                                    #![trigger declarations@[k]]
                                    0 <= k < n && done@[k] implies declarations@[k] is Module
                                    || layout_index(
                                    earlier.push(entry),
                                    declarations@[k].spec_id(),
                                ).is_some() by {
                                    lemma_layout_index_push(
                                        earlier,
                                        entry,
                                        declarations@[k].spec_id(),
                                    );
                                }
                                lemma_layout_index_push(earlier, entry, id);
                            }
                            layouts.push((id, layout));
                            done.set(j, true);
                            progress = true;
                            proof {
                                assert(layouts@ == earlier.push(entry));
                                assert(layouts@.subrange(0, start.len() as int) =~= start);
                                assert forall|k: int|
                                    start.len() <= k < layouts@.len() implies #[trigger] entry_valid(
                                    declarations@,
                                    layouts@,
                                    k,
                                    b,
                                    p,
                                ) by {
                                    if k < earlier.len() {
                                        assert(entry_valid(declarations@, earlier, k, b, p));
                                        assert(layouts@.subrange(0, k) =~= earlier.subrange(0, k));
                                    } else {
                                        assert(layouts@.subrange(0, k) =~= earlier);
                                        assert(declarations@[j as int].spec_id() == id);
                                    }
                                }
                            }
                        },
                        None => {},
                    }
                }
            }
            j = j + 1;
        }
        if !progress {
            break ;
        }
    }
    let mut complete = true;
    let mut j: usize = 0;
    while j < n
        invariant
            0 <= j <= n,
            n == declarations@.len(),
            done@.len() == n,
            complete == (forall|k: int| 0 <= k < j ==> done@[k]),
            forall|k: int|
                #![trigger declarations@[k]]
                0 <= k < n && done@[k] ==> declarations@[k] is Module || layout_index(
                    layouts@,
                    declarations@[k].spec_id(),
                ).is_some(),
            forall|k: int|
                #![trigger declarations@[k]]
                0 <= k < n && !done@[k] ==> !(declarations@[k] is Module) && layout_index(
                    layouts@,
                    declarations@[k].spec_id(),
                ).is_none(),
        decreases n - j,
    {
        if !done[j] {
            complete = false;
        }
        j = j + 1;
    }
    proof {
        if complete {
            assert forall|k: int|
                #![trigger declarations@[k]]
                0 <= k < n && !(declarations@[k] is Module) implies layout_index(
                layouts@,
                declarations@[k].spec_id(),
            ).is_some() by {
                assert(done@[k]);
            }
        } else {
            let k = choose|k: int| 0 <= k < n && !done@[k];
            assert(!(declarations@[k] is Module));
        }
    }
    complete
}

/// The position of the first field of that name among the parts of a
/// struct's layout.
pub open spec fn part_index(parts: Seq<(String, usize, PhysicalType)>, name: Seq<char>) -> Option<
    int,
>
    decreases parts.len(),
{
    if parts.len() == 0 {
        None
    } else if parts[0].0@ == name {
        Some(0int)
    } else {
        match part_index(parts.skip(1), name) {
            Some(i) => Some(i + 1),
            None => None,
        }
    }
}

/// `part_index` finds the first field of that name and no other.
pub proof fn lemma_part_index(parts: Seq<(String, usize, PhysicalType)>, name: Seq<char>)
    ensures
        match part_index(parts, name) {
            Some(i) => 0 <= i < parts.len() && parts[i].0@ == name && forall|k: int|
                0 <= k < i ==> parts[k].0@ != name,
            None => forall|k: int| 0 <= k < parts.len() ==> parts[k].0@ != name,
        },
    decreases parts.len(),
{
    if parts.len() > 0 && parts[0].0@ != name {
        let rest = parts.skip(1);
        lemma_part_index(rest, name);
        assert forall|k: int| 0 < k < parts.len() implies parts[k] == rest[k - 1] by {}
    }
}

/// Where the field of that name lies in a value of a struct: its offset
/// from the start of the value, and how it lies there. `None` where the
/// layout is not that of a struct or the struct has no such field.
pub fn field_location<'a>(layout: &'a DeclaredTypeLayout, name: &String) -> (r: Option<
    (usize, &'a PhysicalType),
>)
    ensures
        match layout.value {
            TypeLayoutValue::Structure(parts) => match part_index(parts@, name@) {
                Some(i) => r matches Some((offset, ty)) && offset == parts@[i].1 && *ty
                    == parts@[i].2,
                None => r.is_none(),
            },
            _ => r.is_none(),
        },
{
    match &layout.value {
        TypeLayoutValue::Structure(parts) => {
            let mut i: usize = 0;
            while i < parts.len()
                invariant
                    0 <= i <= parts@.len(),
                    layout.value == TypeLayoutValue::Structure(*parts),
                    forall|k: int| 0 <= k < i ==> parts@[k].0@ != name@,
                decreases parts@.len() - i,
            {
                if parts[i].0 == *name {
                    proof {
                        lemma_part_index(parts@, name@);
                    }
                    return Some((parts[i].1, &parts[i].2));
                }
                i = i + 1;
            }
            proof {
                lemma_part_index(parts@, name@);
            }
            None
        },
        _ => None,
    }
}

/// What the access to the variant of that name goes by in a value of a
/// union: the tag that the value must hold, the offset of the payload,
/// which lies right after the tag, and how the payload lies there, if
/// the variant has one. `None` where the layout is not that of a union,
/// the union has no such variant, or the tag is larger than the machine
/// word.
pub fn variant_location<'a>(layout: &'a DeclaredTypeLayout, name: &String, pointer_size: usize) -> (r:
    Option<(usize, usize, &'a Option<PhysicalType>)>)
    ensures
        match layout.value {
            TypeLayoutValue::Union(parts) => match name_index(parts@, name@) {
                Some(i) => r matches Some((tag, offset, payload)) && tag == parts@[i].1.0
                    && offset == UNION_TAG_POINTERS * pointer_size && *payload == parts@[i].1.1,
                None => r.is_none(),
            },
            _ => r.is_none(),
        },
{
    match &layout.value {
        TypeLayoutValue::Union(parts) => match find_name(parts, name) {
            Some(i) => Some((parts[i].1.0, pointer_size, &parts[i].1.1)),
            None => None,
        },
        _ => None,
    }
}

/// The position of the first entry of the table that is the function
/// `id`.
pub open spec fn method_index(table: Seq<FunctionID>, id: FunctionID) -> Option<int>
    decreases table.len(),
{
    if table.len() == 0 {
        None
    } else if table[0] == id {
        Some(0int)
    } else {
        match method_index(table.skip(1), id) {
            Some(i) => Some(i + 1),
            None => None,
        }
    }
}

/// `method_index` finds the first entry that is the function and no
/// other.
pub proof fn lemma_method_index(table: Seq<FunctionID>, id: FunctionID)
    ensures
        match method_index(table, id) {
            Some(i) => 0 <= i < table.len() && table[i] == id && forall|k: int|
                0 <= k < i ==> table[k] != id,
            None => forall|k: int| 0 <= k < table.len() ==> table[k] != id,
        },
    decreases table.len(),
{
    if table.len() > 0 && table[0] != id {
        let rest = table.skip(1);
        lemma_method_index(rest, id);
        assert forall|k: int| 0 < k < table.len() implies table[k] == rest[k - 1] by {}
    }
}

/// Where the method `id` of an interface stands in a value of the
/// interface: after the pointer to the object, as many function
/// identifiers on as methods come before it. `None` where the layout is
/// not that of an interface, the interface has no such method, or the
/// offset does not fit the machine word.
pub fn vtable_slot(layout: &DeclaredTypeLayout, id: FunctionID, pointer_size: usize) -> (r: Option<
    usize,
>)
    ensures
        r == match layout.value {
            TypeLayoutValue::Interface(table) => match method_index(table@, id) {
                Some(i) => if pointer_size + i * FUNCTION_ID_SIZE <= usize::MAX {
                    Some((pointer_size + i * FUNCTION_ID_SIZE) as usize)
                } else {
                    None
                },
                None => None,
            },
            _ => None,
        },
{
    match &layout.value {
        TypeLayoutValue::Interface(table) => {
            let mut i: usize = 0;
            while i < table.len()
                invariant
                    0 <= i <= table@.len(),
                    layout.value == TypeLayoutValue::Interface(*table),
                    forall|k: int| 0 <= k < i ==> table@[k] != id,
                decreases table@.len() - i,
            {
                if table[i] == id {
                    proof {
                        lemma_method_index(table@, id);
                    }
                    return match i.checked_mul(FUNCTION_ID_SIZE) {
                        Some(methods) => pointer_size.checked_add(methods),
                        None => None,
                    };
                }
                i = i + 1;
            }
            proof {
                lemma_method_index(table@, id);
            }
            None
        },
        _ => None,
    }
}

/// What the generated code needs to know of the machine and of the
/// declared types: the layouts, the constant data gathered so far, and
/// the sizes of a byte-sized value and of a pointer.
pub struct LinearContext<'a> {
    pub declarations: &'a Vec<(TypeID, DeclaredTypeLayout)>,
    pub constant_data_region: Vec<u8>,
    pub byte_size: usize,
    pub pointer_size: usize,
}

impl<'a> LinearContext<'a> {
    pub fn new(
        declarations: &'a Vec<(TypeID, DeclaredTypeLayout)>,
        constant_data_region: Vec<u8>,
        byte_size: usize,
        pointer_size: usize,
    ) -> (ctx: LinearContext<'a>)
        ensures
            ctx.declarations == declarations,
            ctx.constant_data_region == constant_data_region,
            ctx.byte_size == byte_size,
            ctx.pointer_size == pointer_size,
    {
        LinearContext { declarations, constant_data_region, byte_size, pointer_size }
    }

    /// Adds the bytes to the constant data and gives the offset at which
    /// they begin: where the data ended.
    pub fn add_constant_data(&mut self, bytes: &Vec<u8>) -> (offset: usize)
        ensures
            offset == old(self).constant_data_region@.len(),
            final(self).constant_data_region@ == old(self).constant_data_region@ + bytes@,
            final(self).declarations == old(self).declarations,
            final(self).byte_size == old(self).byte_size,
            final(self).pointer_size == old(self).pointer_size,
    {
        let offset = self.constant_data_region.len();
        let mut i: usize = 0;
        while i < bytes.len()
            invariant
                0 <= i <= bytes@.len(),
                offset == old(self).constant_data_region@.len(),
                self.constant_data_region@ == old(self).constant_data_region@ + bytes@.subrange(
                    0,
                    i as int,
                ),
                self.declarations == old(self).declarations,
                self.byte_size == old(self).byte_size,
                self.pointer_size == old(self).pointer_size,
            decreases bytes@.len() - i,
        {
            self.constant_data_region.push(bytes[i]);
            i = i + 1;
            assert(self.constant_data_region@ =~= old(self).constant_data_region@
                + bytes@.subrange(0, i as int));
        }
        assert(bytes@.subrange(0, bytes@.len() as int) =~= bytes@);
        offset
    }
}

impl PhysicalType {
    /// The bytes that a value of the type takes on the machine of the
    /// context; see `size_of`.
    pub fn size(&self, ctx: &LinearContext<'_>) -> (r: Option<usize>)
        ensures
            r == fitting(
                size_of(
                    *self,
                    ctx.declarations@,
                    ctx.byte_size as int,
                    ctx.pointer_size as int,
                ),
            ),
    {
        self.size_from_decls(ctx.declarations, ctx.byte_size, ctx.pointer_size)
    }
}

/// Whether the layouts `longer` begin with the layouts `shorter`.
pub open spec fn begins_with(longer: Layouts, shorter: Layouts) -> bool {
    shorter.len() <= longer.len() && longer.subrange(0, shorter.len() as int) == shorter
}

/// What is recorded for a type among the first layouts is what is
/// recorded for it among them all.
pub proof fn lemma_layout_index_stays(longer: Layouts, shorter: Layouts, id: TypeID)
    requires
        begins_with(longer, shorter),
        layout_index(shorter, id).is_some(),
    ensures
        layout_index(longer, id) == layout_index(shorter, id),
        longer[layout_index(shorter, id).unwrap()] == shorter[layout_index(shorter, id).unwrap()],
{
    lemma_layout_index(shorter, id);
    lemma_layout_index(longer, id);
    assert forall|k: int| 0 <= k < shorter.len() implies longer[k] == shorter[k] by {
        assert(longer.subrange(0, shorter.len() as int)[k] == longer[k]);
    }
}

/// A size that is known stays what it is when layouts are added.
pub proof fn lemma_size_of_stays(
    ty: PhysicalType,
    longer: Layouts,
    shorter: Layouts,
    byte_size: int,
    pointer_size: int,
)
    requires
        begins_with(longer, shorter),
        size_of(ty, shorter, byte_size, pointer_size).is_some(),
    ensures
        size_of(ty, longer, byte_size, pointer_size) == size_of(
            ty,
            shorter,
            byte_size,
            pointer_size,
        ),
    decreases ty,
{
    match ty {
        PhysicalType::Referenced(id) => {
            lemma_layout_index_stays(longer, shorter, id);
        },
        PhysicalType::Nullable(inner) => {
            lemma_size_of_stays(*inner, longer, shorter, byte_size, pointer_size);
        },
        _ => {},
    }
}

/// A sum of field sizes that is known stays what it is when layouts
/// are added.
pub proof fn lemma_fields_size_stays(
    fields: Seq<(String, ExpressionType)>,
    n: int,
    longer: Layouts,
    shorter: Layouts,
    byte_size: int,
    pointer_size: int,
)
    requires
        begins_with(longer, shorter),
        fields_size(fields, n, shorter, byte_size, pointer_size).is_some(),
    ensures
        fields_size(fields, n, longer, byte_size, pointer_size) == fields_size(
            fields,
            n,
            shorter,
            byte_size,
            pointer_size,
        ),
    decreases n,
{
    if n > 0 {
        lemma_fields_size_stays(fields, n - 1, longer, shorter, byte_size, pointer_size);
        lemma_size_of_stays(
            physical(fields[n - 1].1).unwrap(),
            longer,
            shorter,
            byte_size,
            pointer_size,
        );
    }
}

/// A largest payload that is known stays what it is when layouts are
/// added.
pub proof fn lemma_largest_payload_stays(
    variants: Seq<(String, Option<ExpressionType>)>,
    n: int,
    longer: Layouts,
    shorter: Layouts,
    byte_size: int,
    pointer_size: int,
)
    requires
        begins_with(longer, shorter),
        largest_payload(variants, n, shorter, byte_size, pointer_size).is_some(),
    ensures
        largest_payload(variants, n, longer, byte_size, pointer_size) == largest_payload(
            variants,
            n,
            shorter,
            byte_size,
            pointer_size,
        ),
    decreases n,
{
    if n > 0 {
        lemma_largest_payload_stays(variants, n - 1, longer, shorter, byte_size, pointer_size);
        match variants[n - 1].1 {
            Some(ty) => {
                lemma_size_of_stays(
                    physical(ty).unwrap(),
                    longer,
                    shorter,
                    byte_size,
                    pointer_size,
                );
            },
            None => {},
        }
    }
}

/// The layout of a declared type stays its layout when layouts are
/// added: the sizes that it was computed from are the sizes in the
/// larger table.
pub proof fn lemma_layout_stays(
    decl: TypeDeclaration,
    layout: DeclaredTypeLayout,
    longer: Layouts,
    shorter: Layouts,
    byte_size: int,
    pointer_size: int,
)
    requires
        begins_with(longer, shorter),
        is_layout_of(decl, layout, shorter, byte_size, pointer_size),
        byte_size >= 0,
        pointer_size >= 0,
    ensures
        is_layout_of(decl, layout, longer, byte_size, pointer_size),
{
    match decl {
        TypeDeclaration::Struct(st) => {
            let n = st.fields@.len() as int;
            lemma_fields_size_stays(st.fields@, n, longer, shorter, byte_size, pointer_size);
            match layout.value {
                TypeLayoutValue::Structure(parts) => {
                    assert forall|i: int| #![trigger parts@[i]] 0 <= i < parts@.len() implies Some(
                        parts@[i].1 as int,
                    ) == fields_size(st.fields@, i, longer, byte_size, pointer_size) by {
                        lemma_fields_size_monotone(
                            st.fields@,
                            i,
                            n,
                            shorter,
                            byte_size,
                            pointer_size,
                        );
                        lemma_fields_size_stays(
                            st.fields@,
                            i,
                            longer,
                            shorter,
                            byte_size,
                            pointer_size,
                        );
                    }
                },
                _ => {},
            }
        },
        TypeDeclaration::Union(un) => {
            lemma_largest_payload_stays(
                un.variants@,
                un.variants@.len() as int,
                longer,
                shorter,
                byte_size,
                pointer_size,
            );
        },
        _ => {},
    }
}

/// Every layout that `layout_types` adds is the layout of one of the
/// declarations in the table as a whole: the size of a struct is the
/// sum of the sizes of its fields, that of a union the size of its tag
/// and of its largest payload, with the sizes that the whole table
/// gives.
pub proof fn lemma_added_layout_holds_in_the_table(
    declarations: Seq<TypeDeclaration>,
    layouts: Layouts,
    k: int,
    byte_size: int,
    pointer_size: int,
)
    requires
        0 <= k < layouts.len(),
        entry_valid(declarations, layouts, k, byte_size, pointer_size),
        byte_size >= 0,
        pointer_size >= 0,
    ensures
        exists|j: int|
            #![trigger declarations[j]]
            0 <= j < declarations.len() && declarations[j].spec_id() == layouts[k].0
                && is_layout_of(declarations[j], layouts[k].1, layouts, byte_size, pointer_size),
{
    let j = choose|j: int|
        #![trigger declarations[j]]
        0 <= j < declarations.len() && declarations[j].spec_id() == layouts[k].0 && is_layout_of(
            declarations[j],
            layouts[k].1,
            layouts.subrange(0, k),
            byte_size,
            pointer_size,
        );
    assert(layouts.subrange(0, k).len() == k);
    assert(layouts.subrange(0, layouts.subrange(0, k).len() as int) =~= layouts.subrange(0, k));
    lemma_layout_stays(
        declarations[j],
        layouts[k].1,
        layouts,
        layouts.subrange(0, k),
        byte_size,
        pointer_size,
    );
}

/// A scratch slot of the generated code; it is written, read and killed,
/// and is no variable of the program.
#[derive(Copy, Clone, Debug, PartialEq, Eq, Hash, Structural)]
pub struct RegisterID(pub u32);

/// A node of the linear code, with the place in the source that it came
/// from, if it came from one.
#[derive(Debug, PartialEq, Eq)]
pub struct LinearNode {
    pub value: LinearNodeValue,
    pub provenance: Option<SourceRange>,
}

/// Nodes one after the other.
#[derive(Debug, PartialEq, Eq)]
pub enum LinearNodeList {
    Nil,
    Cons(Box<LinearNode>, Box<LinearNodeList>),
}

#[derive(Debug, PartialEq, Eq)]
pub enum LinearNodeValue {
    /// Each parameter appears once in the body of a function.
    Parameter(PhysicalType, usize),
    VariableInit(VariableID, PhysicalType),
    VariableDestroy(VariableID),
    VariableLocation(VariableID),
    ReadMemory { location: Box<LinearNode>, offset: usize, ty: PhysicalType },
    WriteMemory { location: Box<LinearNode>, offset: usize, ty: PhysicalType, value: Box<LinearNode> },
    ConstantDataAddress(usize),
    Call(Box<LinearNode>, LinearNodeList),
    RuntimeCall(RuntimeFunction, LinearNodeList),
    Return(Option<Box<LinearNode>>),
    If(Box<LinearNode>, LinearNodeList, Option<LinearNodeList>),
    Break,
    Loop(LinearNodeList),
    Abort,
    Goto(Box<LinearNode>),
    GotoLabel(usize),
    Switch { value: Box<LinearNode>, cases: LinearNodeList },
    Sequence(LinearNodeList),
    WriteRegister(RegisterID, Box<LinearNode>),
    WriteRegistersSplitting(Box<LinearNode>, Vec<Option<RegisterID>>),
    ReadRegister(RegisterID),
    KillRegister(RegisterID),
    Arithmetic(ArithmeticOp, PhysicalPrimitive, Box<LinearNode>, Box<LinearNode>),
    Comparison(ComparisonOp, PhysicalPrimitive, Box<LinearNode>, Box<LinearNode>),
    BinaryLogical(BinaryLogicalOp, Box<LinearNode>, Box<LinearNode>),
    UnaryLogical(UnaryLogicalOp, Box<LinearNode>),
    Cast { value: Box<LinearNode>, from: PhysicalPrimitive, to: PhysicalPrimitive },
    Size(usize),
    Int(i64),
    /// A floating-point number, by its bits.
    Float(u64),
    CharLiteral(char),
    Byte(u8),
    FunctionID(FunctionID),
}

/// The node of that value that came from no place in the source.
pub open spec fn node_of(value: LinearNodeValue) -> LinearNode {
    LinearNode { value, provenance: None }
}

pub open spec fn pointer() -> PhysicalType {
    PhysicalType::Primitive(PhysicalPrimitive::PointerSize)
}

/// The list that begins with `head` and goes on with `tail`.
pub open spec fn followed_by(head: LinearNode, tail: LinearNodeList) -> LinearNodeList {
    LinearNodeList::Cons(Box::new(head), Box::new(tail))
}

pub open spec fn size_node(size: usize) -> LinearNode {
    node_of(LinearNodeValue::Size(size))
}

pub open spec fn register_read(id: RegisterID) -> LinearNode {
    node_of(LinearNodeValue::ReadRegister(id))
}

pub open spec fn register_write(id: RegisterID, value: LinearNode) -> LinearNode {
    node_of(LinearNodeValue::WriteRegister(id, Box::new(value)))
}

pub open spec fn register_kill(id: RegisterID) -> LinearNode {
    node_of(LinearNodeValue::KillRegister(id))
}

pub open spec fn memory_read(location: LinearNode, offset: usize, ty: PhysicalType) -> LinearNode {
    node_of(LinearNodeValue::ReadMemory { location: Box::new(location), offset, ty })
}

pub open spec fn memory_write(
    location: LinearNode,
    offset: usize,
    ty: PhysicalType,
    value: LinearNode,
) -> LinearNode {
    node_of(
        LinearNodeValue::WriteMemory {
            location: Box::new(location),
            offset,
            ty,
            value: Box::new(value),
        },
    )
}

pub open spec fn pointer_arithmetic(op: ArithmeticOp, lhs: LinearNode, rhs: LinearNode) -> LinearNode {
    node_of(
        LinearNodeValue::Arithmetic(op, PhysicalPrimitive::PointerSize, Box::new(lhs), Box::new(rhs)),
    )
}

pub open spec fn pointer_comparison(op: ComparisonOp, lhs: LinearNode, rhs: LinearNode) -> LinearNode {
    node_of(
        LinearNodeValue::Comparison(op, PhysicalPrimitive::PointerSize, Box::new(lhs), Box::new(rhs)),
    )
}

pub open spec fn runtime_call(function: RuntimeFunction, args: LinearNodeList) -> LinearNode {
    node_of(LinearNodeValue::RuntimeCall(function, args))
}

impl LinearNodeList {
    /// The list that begins with `head` and goes on with `tail`.
    pub fn cons(head: LinearNode, tail: LinearNodeList) -> (r: LinearNodeList)
        ensures
            r == followed_by(head, tail),
    {
        LinearNodeList::Cons(Box::new(head), Box::new(tail))
    }

    /// The nodes of the list, in order.
    pub open spec fn to_seq(self) -> Seq<LinearNode>
        decreases self,
    {
        match self {
            LinearNodeList::Nil => Seq::empty(),
            LinearNodeList::Cons(head, tail) => seq![*head] + tail.to_seq(),
        }
    }
}

impl LinearNode {
    pub fn new(value: LinearNodeValue) -> (r: LinearNode)
        ensures
            r == node_of(value),
    {
        LinearNode { value, provenance: None }
    }

    pub fn if_node(
        cond: LinearNode,
        if_block: LinearNodeList,
        else_block: Option<LinearNodeList>,
        provenance: Option<SourceRange>,
    ) -> (r: LinearNode)
        ensures
            r == (LinearNode {
                value: LinearNodeValue::If(Box::new(cond), if_block, else_block),
                provenance,
            }),
    {
        LinearNode { value: LinearNodeValue::If(Box::new(cond), if_block, else_block), provenance }
    }

    pub fn ptr_arithmetic(op: ArithmeticOp, lhs: LinearNode, rhs: LinearNode) -> (r: LinearNode)
        ensures
            r == pointer_arithmetic(op, lhs, rhs),
    {
        LinearNode::new(
            LinearNodeValue::Arithmetic(
                op,
                PhysicalPrimitive::PointerSize,
                Box::new(lhs),
                Box::new(rhs),
            ),
        )
    }

    pub fn ptr_comparison(op: ComparisonOp, lhs: LinearNode, rhs: LinearNode) -> (r: LinearNode)
        ensures
            r == pointer_comparison(op, lhs, rhs),
    {
        LinearNode::new(
            LinearNodeValue::Comparison(
                op,
                PhysicalPrimitive::PointerSize,
                Box::new(lhs),
                Box::new(rhs),
            ),
        )
    }

    pub fn size(size: usize) -> (r: LinearNode)
        ensures
            r == size_node(size),
    {
        LinearNode::new(LinearNodeValue::Size(size))
    }

    /// The call that asks the runtime for as many bytes as `size` gives.
    pub fn heap_alloc_var(size: LinearNode) -> (r: LinearNode)
        ensures
            r == runtime_call(RuntimeFunction::Alloc, followed_by(size, LinearNodeList::Nil)),
    {
        LinearNode::new(
            LinearNodeValue::RuntimeCall(
                RuntimeFunction::Alloc,
                LinearNodeList::cons(size, LinearNodeList::Nil),
            ),
        )
    }

    /// The call that asks the runtime for `size` bytes.
    pub fn heap_alloc_const(size: usize) -> (r: LinearNode)
        ensures
            r == runtime_call(RuntimeFunction::Alloc, followed_by(size_node(size), LinearNodeList::Nil)),
    {
        LinearNode::heap_alloc_var(LinearNode::size(size))
    }

    pub fn write_register(id: RegisterID, value: LinearNode) -> (r: LinearNode)
        ensures
            r == register_write(id, value),
    {
        LinearNode::new(LinearNodeValue::WriteRegister(id, Box::new(value)))
    }

    pub fn read_register(id: RegisterID) -> (r: LinearNode)
        ensures
            r == register_read(id),
    {
        LinearNode::new(LinearNodeValue::ReadRegister(id))
    }

    pub fn kill_register(id: RegisterID) -> (r: LinearNode)
        ensures
            r == register_kill(id),
    {
        LinearNode::new(LinearNodeValue::KillRegister(id))
    }

    pub fn read_memory(location: LinearNode, offset: usize, ty: PhysicalType) -> (r: LinearNode)
        ensures
            r == memory_read(location, offset, ty),
    {
        LinearNode::new(LinearNodeValue::ReadMemory { location: Box::new(location), offset, ty })
    }

    pub fn write_memory(location: LinearNode, offset: usize, ty: PhysicalType, value: LinearNode) -> (r:
        LinearNode)
        ensures
            r == memory_write(location, offset, ty, value),
    {
        LinearNode::new(
            LinearNodeValue::WriteMemory {
                location: Box::new(location),
                offset,
                ty,
                value: Box::new(value),
            },
        )
    }

    pub fn abort() -> (r: LinearNode)
        ensures
            r == node_of(LinearNodeValue::Abort),
    {
        LinearNode::new(LinearNodeValue::Abort)
    }

    /// A boolean as the byte that holds it: 1 for true, 0 for false.
    pub fn bool_value(val: bool) -> (r: LinearNode)
        ensures
            r == node_of(
                LinearNodeValue::Byte(
                    if val {
                        1u8
                    } else {
                        0u8
                    },
                ),
            ),
    {
        LinearNode::new(
            LinearNodeValue::Byte(
                if val {
                    1
                } else {
                    0
                },
            ),
        )
    }
}

/// `length + 1`, where the register holds the length.
pub open spec fn length_and_one(length: RegisterID) -> LinearNode {
    pointer_arithmetic(ArithmeticOp::Add, register_read(length), size_node(1))
}

/// `(length + 1) * 2`: the capacity that an array is given when it
/// grows.
pub open spec fn grown_capacity(length: RegisterID) -> LinearNode {
    pointer_arithmetic(ArithmeticOp::Multiply, length_and_one(length), size_node(2))
}

/// `length * elem_size`: the bytes that the elements of the array take.
pub open spec fn bytes_in_use(length: RegisterID, elem_size: usize) -> LinearNode {
    pointer_arithmetic(ArithmeticOp::Multiply, register_read(length), size_node(elem_size))
}

/// What is done where the array has to grow: the new capacity is
/// computed, a buffer of that capacity is asked for, the elements are
/// copied into it, and the new buffer and the new capacity are written
/// to the array.
pub open spec fn grow(
    array: RegisterID,
    length: RegisterID,
    new_capacity: RegisterID,
    buffer: RegisterID,
    array_offset: usize,
    capacity_offset: usize,
    elem_size: usize,
) -> LinearNodeList {
    followed_by(
        register_write(new_capacity, grown_capacity(length)),
        followed_by(
            register_write(
                buffer,
                runtime_call(
                    RuntimeFunction::Alloc,
                    followed_by(
                        pointer_arithmetic(
                            ArithmeticOp::Multiply,
                            register_read(new_capacity),
                            size_node(elem_size),
                        ),
                        LinearNodeList::Nil,
                    ),
                ),
            ),
            followed_by(
                runtime_call(
                    RuntimeFunction::Memcpy,
                    followed_by(
                        register_read(buffer),
                        followed_by(
                            memory_read(register_read(array), array_offset, pointer()),
                            followed_by(bytes_in_use(length, elem_size), LinearNodeList::Nil),
                        ),
                    ),
                ),
                followed_by(
                    memory_write(
                        register_read(array),
                        array_offset,
                        pointer(),
                        register_read(buffer),
                    ),
                    followed_by(
                        memory_write(
                            register_read(array),
                            capacity_offset,
                            pointer(),
                            register_read(new_capacity),
                        ),
                        LinearNodeList::Nil,
                    ),
                ),
            ),
        ),
    )
}

/// The code that makes room for one more element in the array whose
/// header lies at `array_offset` from `array_location`: buffer, then
/// length, then capacity, a pointer each. The length is read; if
/// `(length + 1) * 2` is more than the capacity, the array grows, see
/// `grow`; the length is written back one larger; and the code gives
/// the place of the new element, `buffer + length * elem_size`. It uses
/// the four registers from `first` on and kills them at its end. There
/// is no such code where an offset or a register does not fit the
/// machine word.
pub open spec fn push_space(
    array_location: LinearNode,
    array_offset: usize,
    elem_size: usize,
    provenance: Option<SourceRange>,
    pointer_size: usize,
    first: u32,
) -> Option<LinearNodeValue> {
    if array_offset + 2 * pointer_size > usize::MAX || first + 4 > u32::MAX {
        None
    } else {
        let length_offset = (array_offset + pointer_size) as usize;
        let capacity_offset = (array_offset + 2 * pointer_size) as usize;
        let array = RegisterID(first);
        let length = RegisterID((first + 1) as u32);
        let new_capacity = RegisterID((first + 2) as u32);
        let buffer = RegisterID((first + 3) as u32);
        Some(
            LinearNodeValue::Sequence(
                followed_by(
                    register_write(array, array_location),
                    followed_by(
                        register_write(
                            length,
                            memory_read(register_read(array), length_offset, pointer()),
                        ),
                        followed_by(
                            LinearNode {
                                value: LinearNodeValue::If(
                                    Box::new(
                                        pointer_comparison(
                                            ComparisonOp::GreaterThan,
                                            grown_capacity(length),
                                            memory_read(
                                                register_read(array),
                                                capacity_offset,
                                                pointer(),
                                            ),
                                        ),
                                    ),
                                    grow(
                                        array,
                                        length,
                                        new_capacity,
                                        buffer,
                                        array_offset,
                                        capacity_offset,
                                        elem_size,
                                    ),
                                    None,
                                ),
                                provenance,
                            },
                            followed_by(
                                memory_write(
                                    register_read(array),
                                    length_offset,
                                    pointer(),
                                    length_and_one(length),
                                ),
                                followed_by(
                                    pointer_arithmetic(
                                        ArithmeticOp::Add,
                                        memory_read(register_read(array), array_offset, pointer()),
                                        bytes_in_use(length, elem_size),
                                    ),
                                    followed_by(
                                        register_kill(array),
                                        followed_by(
                                            register_kill(length),
                                            followed_by(
                                                register_kill(new_capacity),
                                                followed_by(register_kill(buffer), LinearNodeList::Nil),
                                            ),
                                        ),
                                    ),
                                ),
                            ),
                        ),
                    ),
                ),
            ),
        )
    }
}

fn pointer_type() -> (r: PhysicalType)
    ensures
        r == pointer(),
{
    PhysicalType::Primitive(PhysicalPrimitive::PointerSize)
}

fn one_more(length: RegisterID) -> (r: LinearNode)
    ensures
        r == length_and_one(length),
{
    LinearNode::ptr_arithmetic(
        ArithmeticOp::Add,
        LinearNode::read_register(length),
        LinearNode::size(1),
    )
}

fn twice_one_more(length: RegisterID) -> (r: LinearNode)
    ensures
        r == grown_capacity(length),
{
    LinearNode::ptr_arithmetic(ArithmeticOp::Multiply, one_more(length), LinearNode::size(2))
}

fn in_use(length: RegisterID, elem_size: usize) -> (r: LinearNode)
    ensures
        r == bytes_in_use(length, elem_size),
{
    LinearNode::ptr_arithmetic(
        ArithmeticOp::Multiply,
        LinearNode::read_register(length),
        LinearNode::size(elem_size),
    )
}

fn grow_block(
    array: RegisterID,
    length: RegisterID,
    new_capacity: RegisterID,
    buffer: RegisterID,
    array_offset: usize,
    capacity_offset: usize,
    elem_size: usize,
) -> (r: LinearNodeList)
    ensures
        r == grow(array, length, new_capacity, buffer, array_offset, capacity_offset, elem_size),
{
    let set_capacity = LinearNode::write_register(new_capacity, twice_one_more(length));
    let allocate = LinearNode::write_register(
        buffer,
        LinearNode::heap_alloc_var(
            LinearNode::ptr_arithmetic(
                ArithmeticOp::Multiply,
                LinearNode::read_register(new_capacity),
                LinearNode::size(elem_size),
            ),
        ),
    );
    let copy = LinearNode::new(
        LinearNodeValue::RuntimeCall(
            RuntimeFunction::Memcpy,
            LinearNodeList::cons(
                LinearNode::read_register(buffer),
                LinearNodeList::cons(
                    LinearNode::read_memory(
                        LinearNode::read_register(array),
                        array_offset,
                        pointer_type(),
                    ),
                    LinearNodeList::cons(in_use(length, elem_size), LinearNodeList::Nil),
                ),
            ),
        ),
    );
    let write_buffer = LinearNode::write_memory(
        LinearNode::read_register(array),
        array_offset,
        pointer_type(),
        LinearNode::read_register(buffer),
    );
    let write_capacity = LinearNode::write_memory(
        LinearNode::read_register(array),
        capacity_offset,
        pointer_type(),
        LinearNode::read_register(new_capacity),
    );
    LinearNodeList::cons(
        set_capacity,
        LinearNodeList::cons(
            allocate,
            LinearNodeList::cons(
                copy,
                LinearNodeList::cons(
                    write_buffer,
                    LinearNodeList::cons(write_capacity, LinearNodeList::Nil),
                ),
            ),
        ),
    )
}

/// The code that makes room for one more element in an array; see
/// `push_space`. The four registers are drawn from `registers`.
pub fn array_alloc_space_to_push(
    array_location: LinearNode,
    array_offset: usize,
    elem_size: usize,
    provenance: Option<SourceRange>,
    pointer_size: usize,
    registers: &mut u32,
) -> (r: Option<LinearNodeValue>)
    ensures
        r == push_space(
            array_location,
            array_offset,
            elem_size,
            provenance,
            pointer_size,
            *old(registers),
        ),
        *final(registers) == if r.is_some() {
            (*old(registers) + 4) as u32
        } else {
            *old(registers)
        },
{
    let length_offset = match array_offset.checked_add(pointer_size) {
        Some(o) => o,
        None => {
            return None;
        },
    };
    let capacity_offset = match length_offset.checked_add(pointer_size) {
        Some(o) => o,
        None => {
            return None;
        },
    };
    let first: u32 = *registers;
    if first > u32::MAX - 4 {
        return None;
    }
    *registers = first + 4;
    let array = RegisterID(first);
    let length = RegisterID(first + 1);
    let new_capacity = RegisterID(first + 2);
    let buffer = RegisterID(first + 3);
    let kills = LinearNodeList::cons(
        LinearNode::kill_register(array),
        LinearNodeList::cons(
            LinearNode::kill_register(length),
            LinearNodeList::cons(
                LinearNode::kill_register(new_capacity),
                LinearNodeList::cons(LinearNode::kill_register(buffer), LinearNodeList::Nil),
            ),
        ),
    );
    let place = LinearNode::ptr_arithmetic(
        ArithmeticOp::Add,
        LinearNode::read_memory(LinearNode::read_register(array), array_offset, pointer_type()),
        in_use(length, elem_size),
    );
    let write_length = LinearNode::write_memory(
        LinearNode::read_register(array),
        length_offset,
        pointer_type(),
        one_more(length),
    );
    let grow_if_full = LinearNode::if_node(
        LinearNode::ptr_comparison(
            ComparisonOp::GreaterThan,
            twice_one_more(length),
            LinearNode::read_memory(
                LinearNode::read_register(array),
                capacity_offset,
                pointer_type(),
            ),
        ),
        grow_block(array, length, new_capacity, buffer, array_offset, capacity_offset, elem_size),
        None,
        provenance,
    );
    let read_length = LinearNode::write_register(
        length,
        LinearNode::read_memory(LinearNode::read_register(array), length_offset, pointer_type()),
    );
    let keep_array = LinearNode::write_register(array, array_location);
    Some(
        LinearNodeValue::Sequence(
            LinearNodeList::cons(
                keep_array,
                LinearNodeList::cons(
                    read_length,
                    LinearNodeList::cons(
                        grow_if_full,
                        LinearNodeList::cons(write_length, LinearNodeList::cons(place, kills)),
                    ),
                ),
            ),
        ),
    )
}

/// The machine on which the linear code runs, as far as the code for
/// arrays uses it: what the registers hold, what the memory holds at
/// each address, and the address from which the runtime hands out
/// memory.
pub struct Machine {
    pub registers: Map<u32, int>,
    pub memory: Map<int, int>,
    pub next_free: int,
}

/// What an arithmetic operation gives; nothing for a division by zero.
pub open spec fn arithmetic_result(op: ArithmeticOp, a: int, b: int) -> Option<int> {
    match op {
        ArithmeticOp::Add => Some(a + b),
        ArithmeticOp::Subtract => Some(a - b),
        ArithmeticOp::Multiply => Some(a * b),
        ArithmeticOp::Divide => if b == 0 {
            None
        } else {
            Some(a / b)
        },
    }
}

/// What a comparison gives: 1 where it holds, else 0.
pub open spec fn comparison_result(op: ComparisonOp, a: int, b: int) -> int {
    let holds = match op {
        ComparisonOp::LessThan => a < b,
        ComparisonOp::GreaterThan => a > b,
        ComparisonOp::LessEqualThan => a <= b,
        ComparisonOp::GreaterEqualThan => a >= b,
        ComparisonOp::EqualTo => a == b,
        ComparisonOp::NotEquals => a != b,
    };
    if holds {
        1
    } else {
        0
    }
}

/// The memory after `size` cells from `src` on are copied to `dest` on.
pub open spec fn copied(memory: Map<int, int>, dest: int, src: int, size: int) -> Map<int, int> {
    Map::total(
        |a: int|
            if dest <= a < dest + size {
                memory[src + (a - dest)]
            } else {
                memory[a]
            },
    )
}

/// The machine after the node has run on it, and the value that the
/// node gives, 0 where it gives none. Memory is read and written cell by
/// cell at `location + offset`; `Alloc` hands out the memory from
/// `next_free` on; `Memcpy` copies cells. Nothing for a node that is
/// none of those that the code for arrays is made of.
pub open spec fn run(node: LinearNode, m: Machine) -> Option<(Machine, int)>
    decreases node, 0nat,
{
    match node.value {
        LinearNodeValue::Size(n) => Some((m, n as int)),
        LinearNodeValue::ReadRegister(id) => Some((m, m.registers[id.0])),
        LinearNodeValue::WriteRegister(id, value) => match run(*value, m) {
            Some((m1, x)) => Some(
                (
                    Machine {
                        registers: m1.registers.insert(id.0, x),
                        memory: m1.memory,
                        next_free: m1.next_free,
                    },
                    0int,
                ),
            ),
            None => None,
        },
        LinearNodeValue::KillRegister(id) => Some(
            (
                Machine {
                    registers: m.registers.remove(id.0),
                    memory: m.memory,
                    next_free: m.next_free,
                },
                0int,
            ),
        ),
        LinearNodeValue::ReadMemory { location, offset, ty } => match run(*location, m) {
            Some((m1, p)) => Some((m1, m1.memory[p + offset])),
            None => None,
        },
        LinearNodeValue::WriteMemory { location, offset, ty, value } => match run(*location, m) {
            Some((m1, p)) => match run(*value, m1) {
                Some((m2, x)) => Some(
                    (
                        Machine {
                            registers: m2.registers,
                            memory: m2.memory.insert(p + offset, x),
                            next_free: m2.next_free,
                        },
                        0int,
                    ),
                ),
                None => None,
            },
            None => None,
        },
        LinearNodeValue::Arithmetic(op, _, lhs, rhs) => match run(*lhs, m) {
            Some((m1, a)) => match run(*rhs, m1) {
                Some((m2, b)) => match arithmetic_result(op, a, b) {
                    Some(x) => Some((m2, x)),
                    None => None,
                },
                None => None,
            },
            None => None,
        },
        LinearNodeValue::Comparison(op, _, lhs, rhs) => match run(*lhs, m) {
            Some((m1, a)) => match run(*rhs, m1) {
                Some((m2, b)) => Some((m2, comparison_result(op, a, b))),
                None => None,
            },
            None => None,
        },
        LinearNodeValue::If(cond, if_block, else_block) => match run(*cond, m) {
            Some((m1, c)) => if c != 0 {
                run_all(if_block, m1)
            } else {
                match else_block {
                    Some(block) => run_all(block, m1),
                    None => Some((m1, 0int)),
                }
            },
            None => None,
        },
        LinearNodeValue::Sequence(nodes) => run_all(nodes, m),
        LinearNodeValue::RuntimeCall(RuntimeFunction::Alloc, args) => match args {
            LinearNodeList::Cons(size, rest) => match run(*size, m) {
                Some((m1, n)) => if n >= 0 && *rest == LinearNodeList::Nil {
                    Some(
                        (
                            Machine {
                                registers: m1.registers,
                                memory: m1.memory,
                                next_free: m1.next_free + n,
                            },
                            m1.next_free,
                        ),
                    )
                } else {
                    None
                },
                None => None,
            },
            LinearNodeList::Nil => None,
        },
        LinearNodeValue::RuntimeCall(RuntimeFunction::Memcpy, args) => match args {
            LinearNodeList::Cons(dest, rest) => match *rest {
                LinearNodeList::Cons(src, rest2) => match *rest2 {
                    LinearNodeList::Cons(size, rest3) => match run(*dest, m) {
                        Some((m1, d)) => match run(*src, m1) {
                            Some((m2, s)) => match run(*size, m2) {
                                Some((m3, n)) => Some(
                                    (
                                        Machine {
                                            registers: m3.registers,
                                            memory: copied(m3.memory, d, s, n),
                                            next_free: m3.next_free,
                                        },
                                        0int,
                                    ),
                                ),
                                None => None,
                            },
                            None => None,
                        },
                        None => None,
                    },
                    LinearNodeList::Nil => None,
                },
                LinearNodeList::Nil => None,
            },
            LinearNodeList::Nil => None,
        },
        _ => None,
    }
}

/// The machine after the nodes have run on it one after the other, and
/// the value that the last of them gives.
pub open spec fn run_all(nodes: LinearNodeList, m: Machine) -> Option<(Machine, int)>
    decreases nodes, 1nat,
{
    match nodes {
        LinearNodeList::Nil => Some((m, 0int)),
        LinearNodeList::Cons(head, tail) => match run(*head, m) {
            Some((m1, x)) => if *tail == LinearNodeList::Nil {
                Some((m1, x))
            } else {
                run_all(*tail, m1)
            },
            None => None,
        },
    }
}

/// The machine with another value in a register.
pub open spec fn with_register(m: Machine, id: RegisterID, x: int) -> Machine {
    Machine { registers: m.registers.insert(id.0, x), memory: m.memory, next_free: m.next_free }
}

/// The machine with another value in a cell of its memory.
pub open spec fn with_cell(m: Machine, address: int, x: int) -> Machine {
    Machine { registers: m.registers, memory: m.memory.insert(address, x), next_free: m.next_free }
}

/// Writing a register runs the value and keeps it in the register.
pub proof fn lemma_run_register_write(id: RegisterID, value: LinearNode, m: Machine, m1: Machine, x: int)
    requires
        run(value, m) == Some((m1, x)),
    ensures
        run(register_write(id, value), m) == Some((with_register(m1, id, x), 0int)),
{
}

/// Reading memory through a register gives the cell at what the register
/// holds and the offset.
pub proof fn lemma_run_memory_read(id: RegisterID, offset: usize, m: Machine)
    ensures
        run(memory_read(register_read(id), offset, pointer()), m) == Some(
            (m, m.memory[m.registers[id.0] + offset]),
        ),
{
    assert(run(register_read(id), m) == Some((m, m.registers[id.0])));
}

/// Writing memory through a register puts the value, which changes
/// nothing, into the cell at what the register holds and the offset.
pub proof fn lemma_run_memory_write(id: RegisterID, offset: usize, value: LinearNode, m: Machine, x: int)
    requires
        run(value, m) == Some((m, x)),
    ensures
        run(memory_write(register_read(id), offset, pointer(), value), m) == Some(
            (with_cell(m, m.registers[id.0] + offset, x), 0int),
        ),
{
    assert(run(register_read(id), m) == Some((m, m.registers[id.0])));
}

/// An arithmetic operation on two values that change nothing gives what
/// the operation gives of them.
pub proof fn lemma_run_arithmetic(
    op: ArithmeticOp,
    lhs: LinearNode,
    rhs: LinearNode,
    m: Machine,
    a: int,
    b: int,
)
    requires
        run(lhs, m) == Some((m, a)),
        run(rhs, m) == Some((m, b)),
        op != ArithmeticOp::Divide,
    ensures
        run(pointer_arithmetic(op, lhs, rhs), m) == Some(
            (m, arithmetic_result(op, a, b).unwrap()),
        ),
{
}

/// Running a list runs its first node and then the rest.
pub proof fn lemma_run_all_step(head: LinearNode, tail: LinearNodeList, m: Machine, m1: Machine, x: int)
    requires
        run(head, m) == Some((m1, x)),
    ensures
        run_all(followed_by(head, tail), m) == if tail == LinearNodeList::Nil {
            Some((m1, x))
        } else {
            run_all(tail, m1)
        },
{
}

/// `length + 1` and `(length + 1) * 2` are what their names say.
pub proof fn lemma_run_grown_capacity(length: RegisterID, m: Machine)
    ensures
        run(length_and_one(length), m) == Some((m, m.registers[length.0] + 1)),
        run(grown_capacity(length), m) == Some((m, (m.registers[length.0] + 1) * 2)),
{
    assert(run(register_read(length), m) == Some((m, m.registers[length.0])));
    assert(run(size_node(1), m) == Some((m, 1int)));
    lemma_run_arithmetic(
        ArithmeticOp::Add,
        register_read(length),
        size_node(1),
        m,
        m.registers[length.0],
        1,
    );
    assert(run(size_node(2), m) == Some((m, 2int)));
    lemma_run_arithmetic(
        ArithmeticOp::Multiply,
        length_and_one(length),
        size_node(2),
        m,
        m.registers[length.0] + 1,
        2,
    );
}

/// What growing does: afterwards the cell of the capacity holds
/// `(length + 1) * 2` and the cell of the buffer the memory that the
/// runtime handed out, and no other cell below that memory has changed;
/// the registers of the array and of the length hold what they held.
pub proof fn lemma_run_grow(
    array: RegisterID,
    length: RegisterID,
    new_capacity: RegisterID,
    buffer: RegisterID,
    array_offset: usize,
    capacity_offset: usize,
    elem_size: usize,
    m: Machine,
)
    requires
        array != length,
        array != new_capacity,
        array != buffer,
        length != new_capacity,
        length != buffer,
        new_capacity != buffer,
        m.registers[length.0] >= 0,
        m.registers[array.0] + capacity_offset < m.next_free,
        array_offset < capacity_offset,
    ensures
        run_all(
            grow(array, length, new_capacity, buffer, array_offset, capacity_offset, elem_size),
            m,
        ) matches Some((after, _)) && after.registers[array.0] == m.registers[array.0]
            && after.registers[length.0] == m.registers[length.0]
            && after.memory[m.registers[array.0] + capacity_offset] == (m.registers[length.0] + 1)
            * 2 && after.memory[m.registers[array.0] + array_offset] == m.next_free && forall|
            a: int,
        |
            a < m.next_free && a != m.registers[array.0] + capacity_offset && a
                != m.registers[array.0] + array_offset ==> after.memory[a] == m.memory[a],
{
    let p = m.registers[array.0];
    let l = m.registers[length.0];
    lemma_run_grown_capacity(length, m);
    lemma_run_register_write(new_capacity, grown_capacity(length), m, m, (l + 1) * 2);
    let g1 = with_register(m, new_capacity, (l + 1) * 2);
    // a buffer is asked for
    let asked_node = pointer_arithmetic(
        ArithmeticOp::Multiply,
        register_read(new_capacity),
        size_node(elem_size),
    );
    let asked = (l + 1) * 2 * elem_size;
    assert(asked >= 0) by (nonlinear_arith)
        requires
            l >= 0,
            elem_size >= 0,
            asked == (l + 1) * 2 * elem_size,
    ;
    assert(run(register_read(new_capacity), g1) == Some((g1, (l + 1) * 2)));
    assert(run(size_node(elem_size), g1) == Some((g1, elem_size as int)));
    lemma_run_arithmetic(
        ArithmeticOp::Multiply,
        register_read(new_capacity),
        size_node(elem_size),
        g1,
        (l + 1) * 2,
        elem_size as int,
    );
    let alloc = runtime_call(RuntimeFunction::Alloc, followed_by(asked_node, LinearNodeList::Nil));
    let g1a = Machine { registers: g1.registers, memory: g1.memory, next_free: g1.next_free + asked };
    assert(run(alloc, g1) == Some((g1a, g1.next_free)));
    lemma_run_register_write(buffer, alloc, g1, g1a, g1.next_free);
    let g2 = with_register(g1a, buffer, m.next_free);
    // the elements are copied
    let used = l * elem_size;
    assert(used >= 0) by (nonlinear_arith)
        requires
            l >= 0,
            elem_size >= 0,
            used == l * elem_size,
    ;
    assert(run(register_read(buffer), g2) == Some((g2, m.next_free)));
    lemma_run_memory_read(array, array_offset, g2);
    assert(run(register_read(length), g2) == Some((g2, l)));
    lemma_run_arithmetic(
        ArithmeticOp::Multiply,
        register_read(length),
        size_node(elem_size),
        g2,
        l,
        elem_size as int,
    );
    let copy = runtime_call(
        RuntimeFunction::Memcpy,
        followed_by(
            register_read(buffer),
            followed_by(
                memory_read(register_read(array), array_offset, pointer()),
                followed_by(bytes_in_use(length, elem_size), LinearNodeList::Nil),
            ),
        ),
    );
    let g3 = Machine {
        registers: g2.registers,
        memory: copied(g2.memory, m.next_free, g2.memory[p + array_offset], used),
        next_free: g2.next_free,
    };
    assert(run(copy, g2) == Some((g3, 0int)));
    // the buffer and the capacity are written
    assert(run(register_read(buffer), g3) == Some((g3, m.next_free)));
    lemma_run_memory_write(array, array_offset, register_read(buffer), g3, m.next_free);
    let g3b = with_cell(g3, p + array_offset, m.next_free);
    let write_buffer = memory_write(
        register_read(array),
        array_offset,
        pointer(),
        register_read(buffer),
    );
    assert(run(register_read(new_capacity), g3b) == Some((g3b, (l + 1) * 2)));
    lemma_run_memory_write(array, capacity_offset, register_read(new_capacity), g3b, (l + 1) * 2);
    let g4 = with_cell(g3b, p + capacity_offset, (l + 1) * 2);
    let last = memory_write(
        register_read(array),
        capacity_offset,
        pointer(),
        register_read(new_capacity),
    );
    lemma_run_all_step(last, LinearNodeList::Nil, g3b, g4, 0);
    let t4 = followed_by(last, LinearNodeList::Nil);
    lemma_run_all_step(write_buffer, t4, g3, g3b, 0);
    let t3 = followed_by(write_buffer, t4);
    lemma_run_all_step(copy, t3, g2, g3, 0);
    let t2 = followed_by(copy, t3);
    lemma_run_all_step(register_write(buffer, alloc), t2, g1, g2, 0);
    let t1 = followed_by(register_write(buffer, alloc), t2);
    lemma_run_all_step(register_write(new_capacity, grown_capacity(length)), t1, m, g1, 0);
}

/// What the code that makes room for one more element does to an array
/// of length `length` and capacity `capacity`, whose header lies below
/// the memory that the runtime hands out: afterwards the length is
/// `length + 1`, and the capacity is `(length + 1) * 2` where that is
/// more than it was, else what it was.
pub proof fn lemma_push_makes_room(
    location: LinearNode,
    array_offset: usize,
    elem_size: usize,
    provenance: Option<SourceRange>,
    pointer_size: usize,
    first: u32,
    m: Machine,
    p: int,
)
    requires
        run(location, m) == Some((m, p)),
        pointer_size > 0,
        push_space(location, array_offset, elem_size, provenance, pointer_size, first).is_some(),
        m.memory[p + array_offset + pointer_size] >= 0,
        m.next_free > p + array_offset + 2 * pointer_size,
    ensures
        ({
            let length = m.memory[p + array_offset + pointer_size];
            let capacity = m.memory[p + array_offset + 2 * pointer_size];
            let code = push_space(
                location,
                array_offset,
                elem_size,
                provenance,
                pointer_size,
                first,
            ).unwrap();
            run(node_of(code), m) matches Some((after, _)) && after.memory[p + array_offset
                + pointer_size] == length + 1 && after.memory[p + array_offset + 2 * pointer_size]
                == if (length + 1) * 2 > capacity {
                (length + 1) * 2
            } else {
                capacity
            }
        }),
{
    let length_offset = (array_offset + pointer_size) as usize;
    let capacity_offset = (array_offset + 2 * pointer_size) as usize;
    let array = RegisterID(first);
    let length_register = RegisterID((first + 1) as u32);
    let new_capacity = RegisterID((first + 2) as u32);
    let buffer = RegisterID((first + 3) as u32);
    let length = m.memory[p + length_offset];
    let capacity = m.memory[p + capacity_offset];
    // the array is kept, and the length is read
    lemma_run_register_write(array, location, m, m, p);
    let m1 = with_register(m, array, p);
    lemma_run_memory_read(array, length_offset, m1);
    let read_length = memory_read(register_read(array), length_offset, pointer());
    lemma_run_register_write(length_register, read_length, m1, m1, length);
    let m2 = with_register(m1, length_register, length);
    // the array grows if it is full
    lemma_run_grown_capacity(length_register, m2);
    lemma_run_memory_read(array, capacity_offset, m2);
    let condition = pointer_comparison(
        ComparisonOp::GreaterThan,
        grown_capacity(length_register),
        memory_read(register_read(array), capacity_offset, pointer()),
    );
    assert(run(condition, m2) == Some(
        (m2, comparison_result(ComparisonOp::GreaterThan, (length + 1) * 2, capacity)),
    ));
    let block = grow(
        array,
        length_register,
        new_capacity,
        buffer,
        array_offset,
        capacity_offset,
        elem_size,
    );
    lemma_run_grow(
        array,
        length_register,
        new_capacity,
        buffer,
        array_offset,
        capacity_offset,
        elem_size,
        m2,
    );
    let branch = LinearNode { value: LinearNodeValue::If(Box::new(condition), block, None), provenance };
    let m3 = run(branch, m2).unwrap().0;
    assert(run(branch, m2).is_some());
    assert(m3.registers[array.0] == p);
    assert(m3.registers[length_register.0] == length);
    assert(m3.memory[p + capacity_offset] == if (length + 1) * 2 > capacity {
        (length + 1) * 2
    } else {
        capacity
    });
    // the length is written back
    lemma_run_grown_capacity(length_register, m3);
    lemma_run_memory_write(array, length_offset, length_and_one(length_register), m3, length + 1);
    let m4 = with_cell(m3, p + length_offset, length + 1);
    let write_length = memory_write(
        register_read(array),
        length_offset,
        pointer(),
        length_and_one(length_register),
    );
    // the place of the new element, and the registers are killed
    lemma_run_memory_read(array, array_offset, m4);
    assert(run(register_read(length_register), m4) == Some((m4, length)));
    assert(run(size_node(elem_size), m4) == Some((m4, elem_size as int)));
    lemma_run_arithmetic(
        ArithmeticOp::Multiply,
        register_read(length_register),
        size_node(elem_size),
        m4,
        length,
        elem_size as int,
    );
    let place = pointer_arithmetic(
        ArithmeticOp::Add,
        memory_read(register_read(array), array_offset, pointer()),
        bytes_in_use(length_register, elem_size),
    );
    lemma_run_arithmetic(
        ArithmeticOp::Add,
        memory_read(register_read(array), array_offset, pointer()),
        bytes_in_use(length_register, elem_size),
        m4,
        m4.memory[p + array_offset],
        length * elem_size,
    );
    let k1 = Machine { registers: m4.registers.remove(array.0), memory: m4.memory, next_free: m4.next_free };
    let k2 = Machine { registers: k1.registers.remove(length_register.0), memory: m4.memory, next_free: m4.next_free };
    let k3 = Machine { registers: k2.registers.remove(new_capacity.0), memory: m4.memory, next_free: m4.next_free };
    let k4 = Machine { registers: k3.registers.remove(buffer.0), memory: m4.memory, next_free: m4.next_free };
    assert(run(register_kill(array), m4) == Some((k1, 0int)));
    assert(run(register_kill(length_register), k1) == Some((k2, 0int)));
    assert(run(register_kill(new_capacity), k2) == Some((k3, 0int)));
    assert(run(register_kill(buffer), k3) == Some((k4, 0int)));
    let t8 = followed_by(register_kill(buffer), LinearNodeList::Nil);
    lemma_run_all_step(register_kill(buffer), LinearNodeList::Nil, k3, k4, 0);
    let t7 = followed_by(register_kill(new_capacity), t8);
    lemma_run_all_step(register_kill(new_capacity), t8, k2, k3, 0);
    let t6 = followed_by(register_kill(length_register), t7);
    lemma_run_all_step(register_kill(length_register), t7, k1, k2, 0);
    let t5 = followed_by(register_kill(array), t6);
    lemma_run_all_step(register_kill(array), t6, m4, k1, 0);
    let t4 = followed_by(place, t5);
    lemma_run_all_step(place, t5, m4, m4, m4.memory[p + array_offset] + length * elem_size);
    let t3 = followed_by(write_length, t4);
    lemma_run_all_step(write_length, t4, m3, m4, 0);
    let t2 = followed_by(branch, t3);
    lemma_run_all_step(branch, t3, m2, m3, run(branch, m2).unwrap().1);
    let t1 = followed_by(register_write(length_register, read_length), t2);
    lemma_run_all_step(register_write(length_register, read_length), t2, m1, m2, 0);
    lemma_run_all_step(register_write(array, location), t1, m, m1, 0);
    assert(run_all(followed_by(register_write(array, location), t1), m) == Some((k4, 0int)));
}

} // verus!
