//! The conversions that the tree of a typed program is given where a
//! child does not have the type that its parent expects of it: a struct
//! is wrapped into an interface, a narrower number is cast to a wider
//! one, a value is made nullable, and a pointer is read through before
//! a field of what it points to is taken.

use vstd::prelude::*;
use crate::declaration_context::{DeclarationContext, IntrinsicFunction};
use crate::id::{FunctionID, TypeID, VariableID};
use crate::typecheck::{
    assignable, deref_fully, deref_once, is_assignable_to, primitive_widens_to, widens_to,
};
use crate::types::{
    find_name, name_index, CollectionType, ExpressionType, InterfaceType, PrimitiveType,
    StructType, TypeDeclaration,
};

verus! {

#[derive(Copy, Clone, Debug, PartialEq, Eq, Structural)]
pub enum ArithmeticOp {
    Add,
    Subtract,
    Multiply,
    Divide,
}

#[derive(Copy, Clone, Debug, PartialEq, Eq, Structural)]
pub enum ComparisonOp {
    LessThan,
    GreaterThan,
    LessEqualThan,
    GreaterEqualThan,
    EqualTo,
    NotEquals,
}

#[derive(Copy, Clone, Debug, PartialEq, Eq, Structural)]
pub enum BinaryLogicalOp {
    BooleanAnd,
    BooleanOr,
}

#[derive(Copy, Clone, Debug, PartialEq, Eq, Structural)]
pub enum UnaryLogicalOp {
    BooleanNot,
}

/// What the body of a coroutine knows of its generator: the variable
/// that holds it, the variable that holds what it is resumed with, and
/// its type.
#[derive(Debug)]
pub struct GeneratorProperties {
    pub generator_var_id: VariableID,
    pub param_var_id: Option<VariableID>,
    pub ty: ExpressionType,
}

/// How many pointers are read through before a field of a value of the
/// type `ty` is taken.
pub open spec fn pointer_depth(ty: ExpressionType) -> nat
    decreases ty,
{
    match ty {
        ExpressionType::Pointer(_, inner) => 1 + pointer_depth(*inner),
        _ => 0,
    }
}

/// The type after `n` pointers are read through.
pub open spec fn deref_times(ty: ExpressionType, n: nat) -> ExpressionType
    decreases n,
{
    if n == 0 {
        ty
    } else {
        deref_times(deref_once(ty), (n - 1) as nat)
    }
}

/// Reading through as many pointers as the type has leaves what all the
/// pointers point to.
pub proof fn lemma_pointer_depth_reaches_the_value(ty: ExpressionType)
    ensures
        deref_times(ty, pointer_depth(ty)) == deref_fully(ty),
    decreases ty,
{
    match ty {
        ExpressionType::Pointer(_, inner) => {
            lemma_pointer_depth_reaches_the_value(*inner);
        },
        _ => {},
    }
}

/// How many times the left side of a dot must be dereferenced; `None`
/// where the count does not fit the machine word.
pub fn dereferences_needed(ty: &ExpressionType) -> (r: Option<usize>)
    ensures
        r == if pointer_depth(*ty) <= usize::MAX {
            Some(pointer_depth(*ty) as usize)
        } else {
            None
        },
    decreases *ty,
{
    match ty {
        ExpressionType::Pointer(_, inner) => match dereferences_needed(inner) {
            Some(n) => n.checked_add(1),
            None => None,
        },
        _ => Some(0),
    }
}

/// The cast that a child of type `actual` needs where `expected` is
/// expected of it: from its own primitive to the expected one, where
/// the two differ and the child's widens to the expected one.
pub open spec fn numeric_cast_needed(expected: ExpressionType, actual: ExpressionType) -> Option<
    (PrimitiveType, PrimitiveType),
> {
    match (expected, actual) {
        (ExpressionType::Primitive(to), ExpressionType::Primitive(from)) => if from != to
            && widens_to(from, to) {
            Some((from, to))
        } else {
            None
        },
        _ => None,
    }
}

/// The cast that a child needs; see `numeric_cast_needed`.
pub fn numeric_cast(expected: &ExpressionType, actual: &ExpressionType) -> (r: Option<
    (PrimitiveType, PrimitiveType),
>)
    ensures
        r == numeric_cast_needed(*expected, *actual),
{
    match (expected, actual) {
        (ExpressionType::Primitive(to), ExpressionType::Primitive(from)) => {
            if *from != *to && primitive_widens_to(*from, *to) {
                Some((*from, *to))
            } else {
                None
            }
        },
        _ => None,
    }
}

/// A child that was cast to what is expected of it needs no further
/// cast.
pub proof fn lemma_numeric_cast_is_idempotent(expected: ExpressionType, actual: ExpressionType)
    requires
        numeric_cast_needed(expected, actual) is Some,
    ensures
        numeric_cast_needed(
            expected,
            ExpressionType::Primitive(numeric_cast_needed(expected, actual).unwrap().1),
        ).is_none(),
        ExpressionType::Primitive(numeric_cast_needed(expected, actual).unwrap().1) == expected,
{
}

/// Whether a child of type `actual` must be made nullable where
/// `expected` is expected of it: a nullable is expected, and the child
/// is neither a nullable nor `Null`.
pub open spec fn null_widening_needed(expected: ExpressionType, actual: ExpressionType) -> bool {
    expected is Nullable && !(actual is Nullable) && actual != ExpressionType::Null
}

/// Whether a child must be made nullable; see `null_widening_needed`.
/// What is made nullable has the type that was expected.
pub fn widen_null(expected: &ExpressionType, actual: &ExpressionType) -> (r: bool)
    ensures
        r == null_widening_needed(*expected, *actual),
{
    let nullable_expected = match expected {
        ExpressionType::Nullable(_) => true,
        _ => false,
    };
    let already = match actual {
        ExpressionType::Nullable(_) => true,
        ExpressionType::Null => true,
        _ => false,
    };
    nullable_expected && !already
}

/// The pairs of the first `n` methods of the interface, each with the
/// method of the struct that bears its name; none if the struct lacks
/// one of them.
pub open spec fn vtable_of(interface: InterfaceType, st: StructType, n: int) -> Option<
    Seq<(FunctionID, FunctionID)>,
>
    decreases n,
{
    if n <= 0 {
        Some(Seq::empty())
    } else {
        match (
            vtable_of(interface, st, n - 1),
            name_index(st.associated_functions@, interface.associated_functions@[n - 1].0@),
        ) {
            (Some(before), Some(j)) => Some(
                before.push(
                    (interface.associated_functions@[n - 1].1, st.associated_functions@[j].1),
                ),
            ),
            _ => None,
        }
    }
}

/// The wrapping that a child of type `actual` needs where `expected` is
/// expected of it: where a value of an interface is expected and the
/// child is a value of a struct, the child is wrapped with the table
/// that gives, for each method of the interface in declaration order,
/// the method of the struct that stands for it; what is wrapped has the
/// type of the interface.
pub open spec fn interface_conversion_needed(
    ctx: &DeclarationContext,
    expected: ExpressionType,
    actual: ExpressionType,
) -> Option<Seq<(FunctionID, FunctionID)>> {
    match (expected, actual) {
        (ExpressionType::InstanceOf(wanted), ExpressionType::InstanceOf(given)) => match (
            ctx.spec_decl(wanted),
            ctx.spec_decl(given),
        ) {
            (
                Some(TypeDeclaration::Interface(interface)),
                Some(TypeDeclaration::Struct(st)),
            ) => vtable_of(interface, st, interface.associated_functions@.len() as int),
            _ => None,
        },
        _ => None,
    }
}

/// A table that lacks a method among the first lacks it among them all.
pub proof fn lemma_vtable_failure_stays(interface: InterfaceType, st: StructType, k: int, n: int)
    requires
        0 <= k <= n,
    ensures
        vtable_of(interface, st, k).is_none() ==> vtable_of(interface, st, n).is_none(),
    decreases n - k,
{
    if k < n {
        lemma_vtable_failure_stays(interface, st, k, n - 1);
    }
}

/// The table of methods with which a struct is wrapped into an
/// interface; see `vtable_of`.
pub fn interface_vtable(interface: &InterfaceType, st: &StructType) -> (r: Option<
    Vec<(FunctionID, FunctionID)>,
>)
    ensures
        match vtable_of(*interface, *st, interface.associated_functions@.len() as int) {
            Some(table) => r matches Some(found) && found@ == table,
            None => r.is_none(),
        },
{
    let mut table: Vec<(FunctionID, FunctionID)> = Vec::new();
    let mut i: usize = 0;
    while i < interface.associated_functions.len()
        invariant
            0 <= i <= interface.associated_functions@.len(),
            vtable_of(*interface, *st, i as int) == Some(table@),
        decreases interface.associated_functions@.len() - i,
    {
        proof {
            lemma_vtable_failure_stays(
                *interface,
                *st,
                i + 1,
                interface.associated_functions@.len() as int,
            );
        }
        match find_name(&st.associated_functions, &interface.associated_functions[i].0) {
            Some(j) => {
                table.push((interface.associated_functions[i].1, st.associated_functions[j].1));
            },
            None => {
                return None;
            },
        }
        i = i + 1;
    }
    Some(table)
}

/// The wrapping that a child needs; see `interface_conversion_needed`.
pub fn interface_conversion(
    ctx: &DeclarationContext,
    expected: &ExpressionType,
    actual: &ExpressionType,
) -> (r: Option<Vec<(FunctionID, FunctionID)>>)
    ensures
        match interface_conversion_needed(ctx, *expected, *actual) {
            Some(table) => r matches Some(found) && found@ == table,
            None => r.is_none(),
        },
{
    match (expected, actual) {
        (ExpressionType::InstanceOf(wanted), ExpressionType::InstanceOf(given)) => match (
            ctx.decl(*wanted),
            ctx.decl(*given),
        ) {
            (
                Some(TypeDeclaration::Interface(interface)),
                Some(TypeDeclaration::Struct(st)),
            ) => interface_vtable(interface, st),
            _ => None,
        },
        _ => None,
    }
}

/// A child that has the type that is expected of it is given no
/// conversion. What was wrapped into an interface, made nullable or
/// cast has the type that was expected, so going over the tree again
/// converts nothing further.
pub proof fn lemma_child_of_the_expected_type_is_not_converted(
    ctx: &DeclarationContext,
    expected: ExpressionType,
)
    ensures
        interface_conversion_needed(ctx, expected, expected).is_none(),
        numeric_cast_needed(expected, expected).is_none(),
        !null_widening_needed(expected, expected),
{
}

/// How a call of the method `name` on a value is made.
#[derive(Copy, Clone, Debug, PartialEq, Eq, Structural)]
pub enum MethodCall {
    /// The method of a struct is called as the function that it is, with
    /// the value as its first argument.
    Direct(FunctionID),
    /// The method of an interface is called through the table of the
    /// value, under the identifier that the interface declares it by.
    Vtable(FunctionID),
}

/// How `value.name(..)` is called where `value` has the type `receiver`,
/// which is that of a declared type: directly for a struct that has such
/// a method, through the table for an interface that has one. Anything
/// else is left as it is.
pub open spec fn method_call(ctx: &DeclarationContext, receiver: ExpressionType, name: Seq<char>) -> Option<
    MethodCall,
> {
    match receiver {
        ExpressionType::InstanceOf(id) => match ctx.spec_decl(id) {
            Some(TypeDeclaration::Struct(st)) => match name_index(st.associated_functions@, name) {
                Some(i) => Some(MethodCall::Direct(st.associated_functions@[i].1)),
                None => None,
            },
            Some(TypeDeclaration::Interface(it)) => match name_index(
                it.associated_functions@,
                name,
            ) {
                Some(i) => Some(MethodCall::Vtable(it.associated_functions@[i].1)),
                None => None,
            },
            _ => None,
        },
        _ => None,
    }
}

/// How a call of a method is made; see `method_call`.
pub fn rewrite_associated_function(
    ctx: &DeclarationContext,
    receiver: &ExpressionType,
    name: &String,
) -> (r: Option<MethodCall>)
    ensures
        r == method_call(ctx, *receiver, name@),
{
    match receiver {
        ExpressionType::InstanceOf(id) => match ctx.decl(*id) {
            Some(TypeDeclaration::Struct(st)) => match find_name(&st.associated_functions, name) {
                Some(i) => Some(MethodCall::Direct(st.associated_functions[i].1)),
                None => None,
            },
            Some(TypeDeclaration::Interface(it)) => match find_name(
                &it.associated_functions,
                name,
            ) {
                Some(i) => Some(MethodCall::Vtable(it.associated_functions[i].1)),
                None => None,
            },
            _ => None,
        },
        _ => None,
    }
}

/// The union of which `value.variant` and `value.variant(..)` make a
/// value, where `value` has the type `left`: the union that `left`
/// names as a type. Anything else is left as it is.
pub fn union_literal_of(ctx: &DeclarationContext, left: &ExpressionType) -> (r: Option<TypeID>)
    ensures
        r == match *left {
            ExpressionType::ReferenceToType(id) => match ctx.spec_decl(id) {
                Some(TypeDeclaration::Union(_)) => Some(id),
                _ => None,
            },
            _ => None,
        },
{
    match left {
        ExpressionType::ReferenceToType(id) => match ctx.decl(*id) {
            Some(TypeDeclaration::Union(_)) => Some(*id),
            _ => None,
        },
        _ => None,
    }
}

/// A node of the tree as far as it expects something of its children.
/// The children are counted from 0 in the order in which the node holds
/// them: the two sides of an operator from left to right; what is
/// called, then its arguments; the condition first.
#[derive(Debug)]
pub enum Parent {
    /// An element of an array: the array, then the index.
    ArrayIndex,
    /// A value of the union made of the variant of that name.
    UnionLiteral(TypeID, String),
    /// An arithmetic operation, with its type.
    Arithmetic(ExpressionType),
    /// A comparison, with the types of its two sides.
    Comparison(ExpressionType, ExpressionType),
    /// `left ?? right`, with its type.
    NullCoalesce(ExpressionType),
    BinaryLogical,
    UnaryLogical,
    /// A call through the table of an interface: the value, then the
    /// arguments, the value itself the first of them.
    VtableCall(FunctionID),
    /// A call, with the type of what is called.
    Call(ExpressionType),
    /// A call of an operation on a collection: its arguments.
    IntrinsicCall(IntrinsicFunction),
    /// An assignment, with the type of its left side.
    Assignment(ExpressionType),
    If,
    While,
    /// The field of that name in a literal of the struct.
    StructLiteral(TypeID, String),
    /// An array literal, with its type.
    ArrayLiteral(ExpressionType),
    /// An array of a length, with its type: the value, then the length.
    ArrayLiteralLength(ExpressionType),
    StringConcat,
    /// A node that expects nothing of its children.
    Other,
}

/// The function that stands for the operation, if it is registered.
pub open spec fn intrinsic_id(table: Seq<(IntrinsicFunction, FunctionID)>, f: IntrinsicFunction) -> Option<
    FunctionID,
>
    decreases table.len(),
{
    if table.len() == 0 {
        None
    } else if table[0].0 == f {
        Some(table[0].1)
    } else {
        intrinsic_id(table.skip(1), f)
    }
}

/// The function that stands for the operation, if it is registered.
pub fn find_intrinsic(table: &Vec<(IntrinsicFunction, FunctionID)>, f: IntrinsicFunction) -> (r:
    Option<FunctionID>)
    ensures
        r == intrinsic_id(table@, f),
{
    let mut i: usize = 0;
    assert(table@.subrange(0, table@.len() as int) =~= table@);
    while i < table.len()
        invariant
            0 <= i <= table@.len(),
            intrinsic_id(table@, f) == intrinsic_id(table@.subrange(i as int, table@.len() as int), f),
        decreases table@.len() - i,
    {
        let ghost rest = table@.subrange(i as int, table@.len() as int);
        assert(rest[0] == table@[i as int]);
        assert(rest.skip(1) =~= table@.subrange(i + 1, table@.len() as int));
        if table[i].0 == f {
            return Some(table[i].1);
        }
        i = i + 1;
    }
    assert(table@.subrange(table@.len() as int, table@.len() as int).len() == 0);
    None
}

/// The parameter at `i` of the function `id`, if it is declared and has
/// one.
pub open spec fn parameter_type(ctx: &DeclarationContext, id: FunctionID, i: int) -> Option<
    ExpressionType,
> {
    match ctx.spec_func(id) {
        Some(func) => if 0 <= i < func.params@.len() {
            Some(func.params@[i])
        } else {
            None
        },
        None => None,
    }
}

fn parameter(ctx: &DeclarationContext, id: FunctionID, i: usize) -> (r: Option<ExpressionType>)
    ensures
        r == parameter_type(ctx, id, i as int),
{
    match ctx.func(id) {
        Some(func) => if i < func.params.len() {
            Some(func.params[i].duplicate())
        } else {
            None
        },
        None => None,
    }
}

/// What an array of the type `ty` holds.
pub open spec fn element_type(ty: ExpressionType) -> Option<ExpressionType> {
    match ty {
        ExpressionType::Collection(CollectionType::Array(element)) => Some(*element),
        _ => None,
    }
}

fn element(ty: &ExpressionType) -> (r: Option<ExpressionType>)
    ensures
        r == element_type(*ty),
{
    match ty {
        ExpressionType::Collection(CollectionType::Array(element)) => Some(element.duplicate()),
        _ => None,
    }
}

/// The type that the parent expects of its child at `position`, if it
/// expects one: an index is a size; both sides of an arithmetic
/// operation have its type; of a comparison, the side that the other
/// accepts has the type of the other; the right side of `??` has its
/// type and the left side is a nullable of it; logical operations and
/// conditions take booleans, concatenation takes strings; an argument
/// has the type of its parameter; what is assigned has the type of the
/// place; a payload, a field and an item have the types that the
/// declarations and the type of the literal give them.
pub open spec fn expected_type(ctx: &DeclarationContext, parent: Parent, position: int) -> Option<
    ExpressionType,
> {
    let boolean = ExpressionType::Primitive(PrimitiveType::Bool);
    let size = ExpressionType::Primitive(PrimitiveType::PointerSize);
    let string = ExpressionType::Collection(CollectionType::String);
    match parent {
        Parent::ArrayIndex => if position == 1 {
            Some(size)
        } else {
            None
        },
        Parent::UnionLiteral(id, variant) => match ctx.spec_decl(id) {
            Some(TypeDeclaration::Union(un)) => match name_index(un.variants@, variant@) {
                Some(i) => if position == 0 {
                    un.variants@[i].1
                } else {
                    None
                },
                None => None,
            },
            _ => None,
        },
        Parent::Arithmetic(ty) => if position == 0 || position == 1 {
            Some(ty)
        } else {
            None
        },
        Parent::Comparison(left, right) => if assignable(ctx, None, left, right) {
            if position == 1 {
                Some(left)
            } else {
                None
            }
        } else if position == 0 {
            Some(right)
        } else {
            None
        },
        Parent::NullCoalesce(ty) => if position == 0 {
            Some(ExpressionType::Nullable(Box::new(ty)))
        } else if position == 1 {
            Some(ty)
        } else {
            None
        },
        Parent::BinaryLogical => if position == 0 || position == 1 {
            Some(boolean)
        } else {
            None
        },
        Parent::UnaryLogical => if position == 0 {
            Some(boolean)
        } else {
            None
        },
        Parent::VtableCall(id) => if position >= 1 {
            parameter_type(ctx, id, position - 1)
        } else {
            None
        },
        Parent::Call(callee) => match callee {
            ExpressionType::ReferenceToFunction(id) => if position >= 1 {
                parameter_type(ctx, id, position - 1)
            } else {
                None
            },
            _ => None,
        },
        Parent::IntrinsicCall(f) => match intrinsic_id(ctx.intrinsic_to_id@, f) {
            Some(id) => if position >= 0 {
                parameter_type(ctx, id, position)
            } else {
                None
            },
            None => None,
        },
        Parent::Assignment(left) => if position == 1 {
            Some(left)
        } else {
            None
        },
        Parent::If => if position == 0 {
            Some(boolean)
        } else {
            None
        },
        Parent::While => if position == 0 {
            Some(boolean)
        } else {
            None
        },
        Parent::StructLiteral(id, field) => match ctx.spec_decl(id) {
            Some(TypeDeclaration::Struct(st)) => match name_index(st.fields@, field@) {
                Some(i) => if position == 0 {
                    Some(st.fields@[i].1)
                } else {
                    None
                },
                None => None,
            },
            _ => None,
        },
        Parent::ArrayLiteral(ty) => if position >= 0 {
            element_type(ty)
        } else {
            None
        },
        Parent::ArrayLiteralLength(ty) => if position == 0 {
            element_type(ty)
        } else if position == 1 {
            Some(size)
        } else {
            None
        },
        Parent::StringConcat => if position == 0 || position == 1 {
            Some(string)
        } else {
            None
        },
        Parent::Other => None,
    }
}

/// The type that the parent expects of its child at `position`; see
/// `expected_type`.
pub fn expected_type_for_child(ctx: &DeclarationContext, parent: &Parent, position: usize) -> (r:
    Option<ExpressionType>)
    ensures
        r == expected_type(ctx, *parent, position as int),
{
    let boolean = ExpressionType::Primitive(PrimitiveType::Bool);
    let size = ExpressionType::Primitive(PrimitiveType::PointerSize);
    let string = ExpressionType::Collection(CollectionType::String);
    match parent {
        Parent::ArrayIndex => if position == 1 {
            Some(size)
        } else {
            None
        },
        Parent::UnionLiteral(id, variant) => match ctx.decl(*id) {
            Some(TypeDeclaration::Union(un)) => match find_name(&un.variants, variant) {
                Some(i) => if position == 0 {
                    match &un.variants[i].1 {
                        Some(ty) => Some(ty.duplicate()),
                        None => None,
                    }
                } else {
                    None
                },
                None => None,
            },
            _ => None,
        },
        Parent::Arithmetic(ty) => if position == 0 || position == 1 {
            Some(ty.duplicate())
        } else {
            None
        },
        Parent::Comparison(left, right) => if is_assignable_to(ctx, None, left, right) {
            if position == 1 {
                Some(left.duplicate())
            } else {
                None
            }
        } else if position == 0 {
            Some(right.duplicate())
        } else {
            None
        },
        Parent::NullCoalesce(ty) => if position == 0 {
            Some(ExpressionType::Nullable(Box::new(ty.duplicate())))
        } else if position == 1 {
            Some(ty.duplicate())
        } else {
            None
        },
        Parent::BinaryLogical => if position == 0 || position == 1 {
            Some(boolean)
        } else {
            None
        },
        Parent::UnaryLogical => if position == 0 {
            Some(boolean)
        } else {
            None
        },
        Parent::VtableCall(id) => if position >= 1 {
            parameter(ctx, *id, position - 1)
        } else {
            None
        },
        Parent::Call(callee) => match callee {
            ExpressionType::ReferenceToFunction(id) => if position >= 1 {
                parameter(ctx, *id, position - 1)
            } else {
                None
            },
            _ => None,
        },
        Parent::IntrinsicCall(f) => match find_intrinsic(&ctx.intrinsic_to_id, *f) {
            Some(id) => parameter(ctx, id, position),
            None => None,
        },
        Parent::Assignment(left) => if position == 1 {
            Some(left.duplicate())
        } else {
            None
        },
        Parent::If => if position == 0 {
            Some(boolean)
        } else {
            None
        },
        Parent::While => if position == 0 {
            Some(boolean)
        } else {
            None
        },
        Parent::StructLiteral(id, field) => match ctx.decl(*id) {
            Some(TypeDeclaration::Struct(st)) => match find_name(&st.fields, field) {
                Some(i) => if position == 0 {
                    Some(st.fields[i].1.duplicate())
                } else {
                    None
                },
                None => None,
            },
            _ => None,
        },
        Parent::ArrayLiteral(ty) => element(ty),
        Parent::ArrayLiteralLength(ty) => if position == 0 {
            element(ty)
        } else if position == 1 {
            Some(size)
        } else {
            None
        },
        Parent::StringConcat => if position == 0 || position == 1 {
            Some(string)
        } else {
            None
        },
        Parent::Other => None,
    }
}

} // verus!
