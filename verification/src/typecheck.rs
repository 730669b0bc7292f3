//! The type rules: which type accepts which, what a pointer reads through
//! to, and how generic parameters are bound at a call.

use vstd::prelude::*;
use crate::declaration_context::DeclarationContext;
use crate::id::{AnyID, FunctionID, TypeID};
use crate::provenance::SourceRange;
use crate::declaration_context::CollectionIntrinsic;
use crate::types::{
    find_name, name_index, CollectionType, Export, ExpressionType, FuncType, InterfaceType,
    ParameterList, PointerKind, PrimitiveType, StructType, TypeDeclaration, UnionType,
};

verus! {

/// The type that is left when every pointer around `ty` is read through.
pub open spec fn deref_fully(ty: ExpressionType) -> ExpressionType
    decreases ty,
{
    match ty {
        ExpressionType::Pointer(_, inner) => deref_fully(*inner),
        _ => ty,
    }
}

/// The type that is left when the outermost pointer of `ty`, if it is one,
/// is read through.
pub open spec fn deref_once(ty: ExpressionType) -> ExpressionType {
    match ty {
        ExpressionType::Pointer(_, inner) => *inner,
        _ => ty,
    }
}

/// Reads through every pointer around `ty`.
pub fn fully_dereference(ty: &ExpressionType) -> (r: &ExpressionType)
    ensures
        *r == deref_fully(*ty),
        !(*r is Pointer),
    decreases *ty,
{
    match ty {
        ExpressionType::Pointer(_, inner) => fully_dereference(inner),
        _ => ty,
    }
}

/// Reads through the outermost pointer of `ty`, if it is one.
pub fn shallow_dereference(ty: &ExpressionType) -> (r: &ExpressionType)
    ensures
        *r == deref_once(*ty),
{
    match ty {
        ExpressionType::Pointer(_, inner) => inner,
        _ => ty,
    }
}

/// Reading through all pointers leaves nothing to read through.
pub proof fn lemma_deref_fully_idempotent(ty: ExpressionType)
    ensures
        !(deref_fully(ty) is Pointer),
        deref_fully(deref_fully(ty)) == deref_fully(ty),
        deref_fully(deref_once(ty)) == deref_fully(ty),
    decreases ty,
{
    match ty {
        ExpressionType::Pointer(_, inner) => {
            lemma_deref_fully_idempotent(*inner);
        },
        _ => {},
    }
}

/// Whether a value of the primitive `from` may stand where `to` is
/// expected: the two are the same, or `from` widens to `to`. A 32-bit
/// integer widens to a size and not a size to a 32-bit integer: an
/// index or a length that is written as a literal is a 32-bit integer,
/// and must stand where a size is expected.
pub open spec fn widens_to(from: PrimitiveType, to: PrimitiveType) -> bool {
    from == to || match (from, to) {
        (PrimitiveType::Int32, PrimitiveType::Int64) => true,
        (PrimitiveType::Int32, PrimitiveType::Float32) => true,
        (PrimitiveType::Int32, PrimitiveType::Float64) => true,
        (PrimitiveType::Int64, PrimitiveType::Float64) => true,
        (PrimitiveType::Float32, PrimitiveType::Float64) => true,
        (PrimitiveType::Int32, PrimitiveType::PointerSize) => true,
        _ => false,
    }
}

/// Whether a value of the primitive `from` may stand where `to` is expected.
pub fn primitive_widens_to(from: PrimitiveType, to: PrimitiveType) -> (r: bool)
    ensures
        r == widens_to(from, to),
{
    if from == to {
        return true;
    }
    match (from, to) {
        (PrimitiveType::Int32, PrimitiveType::Int64) => true,
        (PrimitiveType::Int32, PrimitiveType::Float32) => true,
        (PrimitiveType::Int32, PrimitiveType::Float64) => true,
        (PrimitiveType::Int64, PrimitiveType::Float64) => true,
        (PrimitiveType::Float32, PrimitiveType::Float64) => true,
        (PrimitiveType::Int32, PrimitiveType::PointerSize) => true,
        _ => false,
    }
}

/// Widening never goes both ways between two different primitives.
pub proof fn lemma_widening_antisymmetric(a: PrimitiveType, b: PrimitiveType)
    requires
        widens_to(a, b),
        widens_to(b, a),
    ensures
        a == b,
{
}

/// Widening in two steps is widening.
pub proof fn lemma_widening_transitive(a: PrimitiveType, b: PrimitiveType, c: PrimitiveType)
    requires
        widens_to(a, b),
        widens_to(b, c),
    ensures
        widens_to(a, c),
{
}

/// Whether the method `actual` of a struct can stand for the method
/// `wanted` of an interface: both take a `self`, and agree on the
/// parameters after it and on what they return.
pub open spec fn method_matches(wanted: FuncType, actual: FuncType) -> bool {
    &&& wanted.params@.len() >= 1
    &&& actual.params@.len() >= 1
    &&& wanted.params@.skip(1) == actual.params@.skip(1)
    &&& wanted.returns == actual.returns
}

/// Whether the struct supplies the interface's method at position `i`: it
/// has an associated function of the same name, and the two signatures
/// match.
pub open spec fn supplies_method(
    ctx: &DeclarationContext,
    interface: InterfaceType,
    st: StructType,
    i: int,
) -> bool {
    match name_index(st.associated_functions@, interface.associated_functions@[i].0@) {
        Some(j) => match (
            ctx.spec_func(interface.associated_functions@[i].1),
            ctx.spec_func(st.associated_functions@[j].1),
        ) {
            (Some(wanted), Some(actual)) => method_matches(wanted, actual),
            _ => false,
        },
        None => false,
    }
}

/// Whether the struct supplies every method of the interface.
pub open spec fn satisfies_interface(
    ctx: &DeclarationContext,
    interface: InterfaceType,
    st: StructType,
) -> bool {
    forall|i: int|
        0 <= i < interface.associated_functions@.len() ==> supplies_method(ctx, interface, st, i)
}

/// Whether a value of the declared type `right` may stand where the
/// declared type `left` is expected. Structs and unions accept only
/// themselves; an interface accepts itself and every struct that supplies
/// its methods; nothing accepts a module, and a module accepts nothing.
pub open spec fn instance_assignable(ctx: &DeclarationContext, left: TypeID, right: TypeID) -> bool {
    match (ctx.spec_decl(left), ctx.spec_decl(right)) {
        (Some(TypeDeclaration::Struct(_)), Some(TypeDeclaration::Struct(_))) => left == right,
        (Some(TypeDeclaration::Union(_)), Some(TypeDeclaration::Union(_))) => left == right,
        (Some(TypeDeclaration::Interface(_)), Some(TypeDeclaration::Interface(_))) => left
            == right,
        (
            Some(TypeDeclaration::Interface(interface)),
            Some(TypeDeclaration::Struct(st)),
        ) => satisfies_interface(ctx, interface, st),
        _ => false,
    }
}

/// Whether a value of type `right` may stand where `left` is expected.
///
/// `generics` is the table that binds the generic parameters of the call
/// at hand, if there is one; a parameter stands for the type bound to it,
/// and the bound type is taken as it is, with no parameter left in it.
/// `Unreachable` may stand anywhere; `Void` accepts nothing else, and
/// nothing accepts `Void`. `Null` may stand only where a nullable is
/// expected. A pointer accepts a pointer of its kind, and a shared pointer
/// also a unique one, to what its target accepts; anything but a pointer
/// accepts a pointer to what it accepts. `Nullable(T)` accepts what `T`
/// accepts. A primitive accepts itself and what widens to it. Declared
/// types go by `instance_assignable`; collections and generators accept
/// only themselves. Types as values and functions as values are accepted
/// nowhere.
#[verifier::opaque]
pub open spec fn assignable(
    ctx: &DeclarationContext,
    generics: Option<Seq<ExpressionType>>,
    left: ExpressionType,
    right: ExpressionType,
) -> bool
    decreases
            (if generics.is_some() {
                1int
            } else {
                0int
            }),
            right,
            left,
{
    match (left, right) {
        (ExpressionType::TypeParameterReference(idx), _) => match generics {
            Some(table) => idx < table.len() && assignable(ctx, None, table[idx as int], right),
            None => false,
        },
        (_, ExpressionType::TypeParameterReference(_)) => false,
        (_, ExpressionType::Unreachable) => true,
        (ExpressionType::Unreachable, _) => false,
        (ExpressionType::Void, _) => false,
        (_, ExpressionType::Void) => false,
        (ExpressionType::Null, _) => false,
        (ExpressionType::Pointer(lk, li), ExpressionType::Pointer(rk, ri)) => (lk == rk || (lk
            == PointerKind::Shared && rk == PointerKind::Unique)) && assignable(
            ctx,
            generics,
            *li,
            *ri,
        ),
        (_, ExpressionType::Pointer(_, ri)) => assignable(ctx, generics, left, *ri),
        (ExpressionType::Pointer(_, _), _) => false,
        (ExpressionType::Nullable(_), ExpressionType::Null) => true,
        (_, ExpressionType::Null) => false,
        (ExpressionType::Nullable(li), ExpressionType::Nullable(ri)) => assignable(
            ctx,
            generics,
            *li,
            *ri,
        ),
        (ExpressionType::Nullable(li), _) => assignable(ctx, generics, *li, right),
        (_, ExpressionType::Nullable(_)) => false,
        (ExpressionType::Primitive(l), ExpressionType::Primitive(r)) => widens_to(r, l),
        (ExpressionType::InstanceOf(l), ExpressionType::InstanceOf(r)) => instance_assignable(
            ctx,
            l,
            r,
        ),
        (ExpressionType::Generator { .. }, ExpressionType::Generator { .. }) => left == right,
        (ExpressionType::Collection(l), ExpressionType::Collection(r)) => l == r,
        _ => false,
    }
}

/// The binding table as the rules see it.
pub open spec fn table_of(generic_args: Option<&Vec<ExpressionType>>) -> Option<Seq<ExpressionType>> {
    match generic_args {
        Some(v) => Some(v@),
        None => None,
    }
}

/// Whether two signatures agree on the parameters after `self` and on
/// what they return.
pub fn methods_match(wanted: &FuncType, actual: &FuncType) -> (r: bool)
    ensures
        r == method_matches(*wanted, *actual),
{
    if wanted.params.len() < 1 || actual.params.len() < 1 {
        return false;
    }
    if wanted.params.len() != actual.params.len() {
        assert(wanted.params@.skip(1).len() != actual.params@.skip(1).len());
        return false;
    }
    if !wanted.returns.same(&actual.returns) {
        return false;
    }
    let mut i: usize = 1;
    while i < wanted.params.len()
        invariant
            1 <= i <= wanted.params.len(),
            wanted.params.len() == actual.params.len(),
            forall|k: int| 1 <= k < i ==> wanted.params@[k] == actual.params@[k],
        decreases wanted.params.len() - i,
    {
        if !wanted.params[i].same(&actual.params[i]) {
            proof {
                let k = i as int - 1;
                assert(wanted.params@.skip(1)[k] == wanted.params@[i as int]);
                assert(actual.params@.skip(1)[k] == actual.params@[i as int]);
            }
            return false;
        }
        i = i + 1;
    }
    assert(wanted.params@.skip(1) =~= actual.params@.skip(1));
    true
}

/// Whether the struct supplies every method of the interface.
pub fn struct_satisfies_interface(
    ctx: &DeclarationContext,
    interface: &InterfaceType,
    st: &StructType,
) -> (r: bool)
    ensures
        r == satisfies_interface(ctx, *interface, *st),
{
    let mut i: usize = 0;
    while i < interface.associated_functions.len()
        invariant
            0 <= i <= interface.associated_functions.len(),
            forall|k: int| 0 <= k < i ==> supplies_method(ctx, *interface, *st, k),
        decreases interface.associated_functions.len() - i,
    {
        let found = find_name(&st.associated_functions, &interface.associated_functions[i].0);
        let ok = match found {
            Some(j) => {
                let wanted = ctx.func(interface.associated_functions[i].1);
                let actual = ctx.func(st.associated_functions[j].1);
                match (wanted, actual) {
                    (Some(w), Some(a)) => methods_match(w, a),
                    _ => false,
                }
            },
            None => false,
        };
        assert(ok == supplies_method(ctx, *interface, *st, i as int));
        if !ok {
            return false;
        }
        i = i + 1;
    }
    true
}

/// Whether a value of the declared type `right` may stand where the
/// declared type `left` is expected.
pub fn is_instance_assignable(ctx: &DeclarationContext, left: TypeID, right: TypeID) -> (r: bool)
    ensures
        r == instance_assignable(ctx, left, right),
{
    match (ctx.decl(left), ctx.decl(right)) {
        (Some(TypeDeclaration::Struct(_)), Some(TypeDeclaration::Struct(_))) => left == right,
        (Some(TypeDeclaration::Union(_)), Some(TypeDeclaration::Union(_))) => left == right,
        (Some(TypeDeclaration::Interface(_)), Some(TypeDeclaration::Interface(_))) => left
            == right,
        (
            Some(TypeDeclaration::Interface(interface)),
            Some(TypeDeclaration::Struct(st)),
        ) => struct_satisfies_interface(ctx, interface, st),
        _ => false,
    }
}

/// Whether a value of type `right` may stand where `left` is expected;
/// see `assignable`.
pub fn is_assignable_to(
    context: &DeclarationContext,
    generic_args: Option<&Vec<ExpressionType>>,
    left: &ExpressionType,
    right: &ExpressionType,
) -> (r: bool)
    ensures
        r == assignable(context, table_of(generic_args), *left, *right),
    decreases
            (if generic_args.is_some() {
                1int
            } else {
                0int
            }),
            *right,
            *left,
{
    reveal(assignable);
    match (left, right) {
        (ExpressionType::TypeParameterReference(idx), _) => match generic_args {
            Some(table) => {
                if *idx < table.len() {
                    is_assignable_to(context, None, &table[*idx], right)
                } else {
                    false
                }
            },
            None => false,
        },
        (_, ExpressionType::TypeParameterReference(_)) => false,
        (_, ExpressionType::Unreachable) => true,
        (ExpressionType::Unreachable, _) => false,
        (ExpressionType::Void, _) => false,
        (_, ExpressionType::Void) => false,
        (ExpressionType::Null, _) => false,
        (ExpressionType::Pointer(lk, li), ExpressionType::Pointer(rk, ri)) => {
            let kinds = match (lk, rk) {
                (PointerKind::Unique, PointerKind::Unique) => true,
                (PointerKind::Shared, _) => true,
                _ => false,
            };
            kinds && is_assignable_to(context, generic_args, li, ri)
        },
        (_, ExpressionType::Pointer(_, ri)) => is_assignable_to(context, generic_args, left, ri),
        (ExpressionType::Pointer(_, _), _) => false,
        (ExpressionType::Nullable(_), ExpressionType::Null) => true,
        (_, ExpressionType::Null) => false,
        (ExpressionType::Nullable(li), ExpressionType::Nullable(ri)) => is_assignable_to(
            context,
            generic_args,
            li,
            ri,
        ),
        (ExpressionType::Nullable(li), _) => is_assignable_to(context, generic_args, li, right),
        (_, ExpressionType::Nullable(_)) => false,
        (ExpressionType::Primitive(l), ExpressionType::Primitive(r)) => primitive_widens_to(
            *r,
            *l,
        ),
        (ExpressionType::InstanceOf(l), ExpressionType::InstanceOf(r)) => is_instance_assignable(
            context,
            *l,
            *r,
        ),
        (ExpressionType::Generator { .. }, ExpressionType::Generator { .. }) => left.same(right),
        (ExpressionType::Collection(l), ExpressionType::Collection(r)) => l.same(r),
        _ => false,
    }
}

/// The binding table after the parameter type `left` has been held against
/// the argument type `right`: where `left` names a generic parameter whose
/// slot is still `Unreachable`, the slot takes the type found at that place
/// in `right`. A slot that is bound stays as it is.
#[verifier::opaque]
pub open spec fn bind_generics(
    table: Seq<ExpressionType>,
    left: ExpressionType,
    right: ExpressionType,
) -> Seq<ExpressionType>
    decreases left,
{
    match left {
        ExpressionType::TypeParameterReference(idx) => if idx < table.len() && table[idx as int]
            == ExpressionType::Unreachable {
            table.update(idx as int, right)
        } else {
            table
        },
        ExpressionType::Pointer(lk, li) => match right {
            ExpressionType::Pointer(rk, ri) => if lk == PointerKind::Shared || rk
                == PointerKind::Unique {
                bind_generics(table, *li, *ri)
            } else {
                bind_generics(table, *li, right)
            },
            ExpressionType::FunctionReference { .. } => table,
            ExpressionType::ReferenceToFunction(_) => table,
            _ => bind_generics(table, *li, right),
        },
        ExpressionType::Nullable(li) => match right {
            ExpressionType::Nullable(ri) => bind_generics(table, *li, *ri),
            _ => bind_generics(table, *li, right),
        },
        ExpressionType::Collection(CollectionType::Array(li)) => match right {
            ExpressionType::Collection(CollectionType::Array(ri)) => bind_generics(
                table,
                *li,
                *ri,
            ),
            _ => table,
        },
        ExpressionType::Collection(CollectionType::ReferenceCounter(li)) => match right {
            ExpressionType::Collection(CollectionType::ReferenceCounter(ri)) => bind_generics(
                table,
                *li,
                *ri,
            ),
            _ => table,
        },
        ExpressionType::Collection(CollectionType::Cell(li)) => match right {
            ExpressionType::Collection(CollectionType::Cell(ri)) => bind_generics(
                table,
                *li,
                *ri,
            ),
            _ => table,
        },
        ExpressionType::Collection(CollectionType::Dict(lk, lv)) => match right {
            ExpressionType::Collection(CollectionType::Dict(rk, rv)) => bind_generics(
                bind_generics(table, *lk, *rk),
                *lv,
                *rv,
            ),
            _ => table,
        },
        ExpressionType::Generator { yield_ty: ly, param_ty: lp } => match right {
            ExpressionType::Generator { yield_ty: ry, param_ty: rp } => bind_generics(
                bind_generics(table, *ly, *ry),
                *lp,
                *rp,
            ),
            _ => table,
        },
        _ => table,
    }
}

/// Binding keeps the size of the table and every slot that was bound.
pub proof fn lemma_bind_first_write_wins(
    table: Seq<ExpressionType>,
    left: ExpressionType,
    right: ExpressionType,
)
    ensures
        bind_generics(table, left, right).len() == table.len(),
        forall|i: int|
            0 <= i < table.len() && table[i] != ExpressionType::Unreachable ==> bind_generics(
                table,
                left,
                right,
            )[i] == table[i],
    decreases left,
{
    reveal(bind_generics);
    match left {
        ExpressionType::Pointer(lk, li) => match right {
            ExpressionType::Pointer(rk, ri) => {
                lemma_bind_first_write_wins(table, *li, *ri);
                lemma_bind_first_write_wins(table, *li, right);
            },
            _ => {
                lemma_bind_first_write_wins(table, *li, right);
            },
        },
        ExpressionType::Nullable(li) => match right {
            ExpressionType::Nullable(ri) => {
                lemma_bind_first_write_wins(table, *li, *ri);
            },
            _ => {
                lemma_bind_first_write_wins(table, *li, right);
            },
        },
        ExpressionType::Collection(CollectionType::Array(li)) => match right {
            ExpressionType::Collection(CollectionType::Array(ri)) => {
                lemma_bind_first_write_wins(table, *li, *ri);
            },
            _ => {},
        },
        ExpressionType::Collection(CollectionType::ReferenceCounter(li)) => match right {
            ExpressionType::Collection(CollectionType::ReferenceCounter(ri)) => {
                lemma_bind_first_write_wins(table, *li, *ri);
            },
            _ => {},
        },
        ExpressionType::Collection(CollectionType::Cell(li)) => match right {
            ExpressionType::Collection(CollectionType::Cell(ri)) => {
                lemma_bind_first_write_wins(table, *li, *ri);
            },
            _ => {},
        },
        ExpressionType::Collection(CollectionType::Dict(lk, lv)) => match right {
            ExpressionType::Collection(CollectionType::Dict(rk, rv)) => {
                lemma_bind_first_write_wins(table, *lk, *rk);
                lemma_bind_first_write_wins(bind_generics(table, *lk, *rk), *lv, *rv);
            },
            _ => {},
        },
        ExpressionType::Generator { yield_ty: ly, param_ty: lp } => match right {
            ExpressionType::Generator { yield_ty: ry, param_ty: rp } => {
                lemma_bind_first_write_wins(table, *ly, *ry);
                lemma_bind_first_write_wins(bind_generics(table, *ly, *ry), *lp, *rp);
            },
            _ => {},
        },
        _ => {},
    }
}

/// Holds the parameter type `left` against the argument type `right` and
/// binds the generic parameters that are met unbound; see `bind_generics`.
pub fn find_generic_bindings(
    generic_args: &mut Vec<ExpressionType>,
    left: &ExpressionType,
    right: &ExpressionType,
)
    ensures
        final(generic_args)@ == bind_generics(old(generic_args)@, *left, *right),
    decreases *left,
{
    reveal(bind_generics);
    match left {
        ExpressionType::TypeParameterReference(idx) => {
            if *idx < generic_args.len() {
                let unbound = match &generic_args[*idx] {
                    ExpressionType::Unreachable => true,
                    _ => false,
                };
                if unbound {
                    generic_args.set(*idx, right.duplicate());
                }
            }
        },
        ExpressionType::Pointer(lk, li) => match right {
            ExpressionType::Pointer(rk, ri) => {
                let through = match (lk, rk) {
                    (PointerKind::Shared, _) => true,
                    (_, PointerKind::Unique) => true,
                    _ => false,
                };
                if through {
                    find_generic_bindings(generic_args, li, ri)
                } else {
                    find_generic_bindings(generic_args, li, right)
                }
            },
            ExpressionType::FunctionReference { .. } => {},
            ExpressionType::ReferenceToFunction(_) => {},
            _ => find_generic_bindings(generic_args, li, right),
        },
        ExpressionType::Nullable(li) => match right {
            ExpressionType::Nullable(ri) => find_generic_bindings(generic_args, li, ri),
            _ => find_generic_bindings(generic_args, li, right),
        },
        ExpressionType::Collection(CollectionType::Array(li)) => match right {
            ExpressionType::Collection(CollectionType::Array(ri)) => find_generic_bindings(
                generic_args,
                li,
                ri,
            ),
            _ => {},
        },
        ExpressionType::Collection(CollectionType::ReferenceCounter(li)) => match right {
            ExpressionType::Collection(
                CollectionType::ReferenceCounter(ri),
            ) => find_generic_bindings(generic_args, li, ri),
            _ => {},
        },
        ExpressionType::Collection(CollectionType::Cell(li)) => match right {
            ExpressionType::Collection(CollectionType::Cell(ri)) => find_generic_bindings(
                generic_args,
                li,
                ri,
            ),
            _ => {},
        },
        ExpressionType::Collection(CollectionType::Dict(lk, lv)) => match right {
            ExpressionType::Collection(CollectionType::Dict(rk, rv)) => {
                find_generic_bindings(generic_args, lk, rk);
                find_generic_bindings(generic_args, lv, rv);
            },
            _ => {},
        },
        ExpressionType::Generator { yield_ty: ly, param_ty: lp } => match right {
            ExpressionType::Generator { yield_ty: ry, param_ty: rp } => {
                find_generic_bindings(generic_args, ly, ry);
                find_generic_bindings(generic_args, lp, rp);
            },
            _ => {},
        },
        _ => {},
    }
}

/// The parameter list with every generic parameter replaced by what the
/// table binds to it.
pub open spec fn substituted_list(
    list: ParameterList,
    table: Seq<ExpressionType>,
) -> ParameterList
    decreases list,
{
    match list {
        ParameterList::Nil => ParameterList::Nil,
        ParameterList::Cons(head, tail) => ParameterList::Cons(
            Box::new(substituted(*head, table)),
            Box::new(substituted_list(*tail, table)),
        ),
    }
}

/// The type with every generic parameter replaced by what the table binds
/// to it; a parameter for which the table has no slot stays.
pub open spec fn substituted(ty: ExpressionType, table: Seq<ExpressionType>) -> ExpressionType
    decreases ty,
{
    match ty {
        ExpressionType::TypeParameterReference(idx) => if idx < table.len() {
            table[idx as int]
        } else {
            ty
        },
        ExpressionType::Pointer(kind, inner) => ExpressionType::Pointer(
            kind,
            Box::new(substituted(*inner, table)),
        ),
        ExpressionType::Nullable(inner) => ExpressionType::Nullable(
            Box::new(substituted(*inner, table)),
        ),
        ExpressionType::Collection(CollectionType::Array(inner)) => ExpressionType::Collection(
            CollectionType::Array(Box::new(substituted(*inner, table))),
        ),
        ExpressionType::Collection(
            CollectionType::ReferenceCounter(inner),
        ) => ExpressionType::Collection(
            CollectionType::ReferenceCounter(Box::new(substituted(*inner, table))),
        ),
        ExpressionType::Collection(CollectionType::Cell(inner)) => ExpressionType::Collection(
            CollectionType::Cell(Box::new(substituted(*inner, table))),
        ),
        ExpressionType::Collection(CollectionType::Dict(key, value)) => ExpressionType::Collection(
            CollectionType::Dict(
                Box::new(substituted(*key, table)),
                Box::new(substituted(*value, table)),
            ),
        ),
        ExpressionType::Generator { yield_ty, param_ty } => ExpressionType::Generator {
            yield_ty: Box::new(substituted(*yield_ty, table)),
            param_ty: Box::new(substituted(*param_ty, table)),
        },
        ExpressionType::FunctionReference { parameters, returns: result } => {
            ExpressionType::FunctionReference {
                parameters: substituted_list(parameters, table),
                returns: Box::new(substituted(*result, table)),
            }
        },
        _ => ty,
    }
}

/// Replaces the generic parameters of a parameter list; see
/// `substituted_list`.
pub fn resolve_generics_in_list(
    list: &ParameterList,
    table: &Vec<ExpressionType>,
) -> (r: ParameterList)
    ensures
        r == substituted_list(*list, table@),
    decreases *list,
{
    match list {
        ParameterList::Nil => ParameterList::Nil,
        ParameterList::Cons(head, tail) => ParameterList::Cons(
            Box::new(resolve_generics(head, table)),
            Box::new(resolve_generics_in_list(tail, table)),
        ),
    }
}

/// Replaces the generic parameters of a type by what the table binds to
/// them; see `substituted`.
pub fn resolve_generics(ty: &ExpressionType, table: &Vec<ExpressionType>) -> (r: ExpressionType)
    ensures
        r == substituted(*ty, table@),
    decreases *ty,
{
    match ty {
        ExpressionType::TypeParameterReference(idx) => if *idx < table.len() {
            table[*idx].duplicate()
        } else {
            ty.duplicate()
        },
        ExpressionType::Pointer(kind, inner) => ExpressionType::Pointer(
            *kind,
            Box::new(resolve_generics(inner, table)),
        ),
        ExpressionType::Nullable(inner) => ExpressionType::Nullable(
            Box::new(resolve_generics(inner, table)),
        ),
        ExpressionType::Collection(CollectionType::Array(inner)) => ExpressionType::Collection(
            CollectionType::Array(Box::new(resolve_generics(inner, table))),
        ),
        ExpressionType::Collection(
            CollectionType::ReferenceCounter(inner),
        ) => ExpressionType::Collection(
            CollectionType::ReferenceCounter(Box::new(resolve_generics(inner, table))),
        ),
        ExpressionType::Collection(CollectionType::Cell(inner)) => ExpressionType::Collection(
            CollectionType::Cell(Box::new(resolve_generics(inner, table))),
        ),
        ExpressionType::Collection(CollectionType::Dict(key, value)) => ExpressionType::Collection(
            CollectionType::Dict(
                Box::new(resolve_generics(key, table)),
                Box::new(resolve_generics(value, table)),
            ),
        ),
        ExpressionType::Generator { yield_ty, param_ty } => ExpressionType::Generator {
            yield_ty: Box::new(resolve_generics(yield_ty, table)),
            param_ty: Box::new(resolve_generics(param_ty, table)),
        },
        ExpressionType::FunctionReference { parameters, returns: result } => {
            ExpressionType::FunctionReference {
                parameters: resolve_generics_in_list(parameters, table),
                returns: Box::new(resolve_generics(result, table)),
            }
        },
        _ => ty.duplicate(),
    }
}

/// What can be wrong with a program under the type rules, and with a
/// declaration.
#[derive(Debug, PartialEq, Eq)]
pub enum TypecheckError {
    /// Two items of one file bear the name `name`; the first of them
    /// stands at `first`, and the error is reported at the second.
    DeclarationNameConflict { first: SourceRange, name: String },
    IllegalImport,
    FileNotFound,
    ImportPathMustBeModule,
    IllegalReferenceInsideDataType,
    UnknownProperty,
    NameNotFound,
    TypeMismatch { expected: ExpressionType, received: ExpressionType },
    FieldNotPresent,
    ExportNotFound,
    ArithmeticMismatch,
    ExpectedNullableLHS,
    CaseStatementRequiresUnion,
    BindingCountDoesntMatch,
    BindingNameDoesntMatch,
    NonExhaustiveCase,
    IllegalDotLHS,
    IllegalDotRHS,
    IllegalAssignmentLHS,
    IllegalSharedRefMutation,
    IllegalFirstClassReference,
    IllegalNonLvalueBorrow,
    IllegalNonRefBorrow,
    DereferenceNonPointer,
    CantCall,
    WrongArgsCount,
    MissingField,
    NonStructDeclStructLiteral,
    MustReturnGenerator,
    CannotYield,
    NoNullDeclarations,
    TopLevelConstantMustHaveType,
    NonConstantInConst,
    CantAssignToReference,
    SelfParameterInNonAssociatedFunc,
}

/// Holds `right` against `left`: nothing where `left` accepts `right`,
/// else the mismatch of the two.
pub fn assert_assignable_to(
    declarations: &DeclarationContext,
    lhs: &ExpressionType,
    rhs: &ExpressionType,
) -> (r: Result<(), TypecheckError>)
    ensures
        r == if assignable(declarations, None, *lhs, *rhs) {
            Ok::<(), TypecheckError>(())
        } else {
            Err::<(), TypecheckError>(
                TypecheckError::TypeMismatch { expected: *lhs, received: *rhs },
            )
        },
{
    if is_assignable_to(declarations, None, lhs, rhs) {
        Ok(())
    } else {
        Err(TypecheckError::TypeMismatch { expected: lhs.duplicate(), received: rhs.duplicate() })
    }
}

/// The type of an integer literal: 32 bits wide if the value fits a
/// signed integer of that width, else 64.
pub open spec fn integer_type(value: u64) -> ExpressionType {
    if value <= 0x7fff_ffff {
        ExpressionType::Primitive(PrimitiveType::Int32)
    } else {
        ExpressionType::Primitive(PrimitiveType::Int64)
    }
}

/// The type of an integer literal.
pub fn integer_literal_type(value: u64) -> (r: ExpressionType)
    ensures
        r == integer_type(value),
{
    if value <= 0x7fff_ffff {
        ExpressionType::Primitive(PrimitiveType::Int32)
    } else {
        ExpressionType::Primitive(PrimitiveType::Int64)
    }
}

/// The type of `left op right` for an arithmetic operator: both sides
/// must read through to primitives; the result is the side that accepts
/// the other, the left one if both do.
pub open spec fn arithmetic_type(
    ctx: &DeclarationContext,
    left: ExpressionType,
    right: ExpressionType,
) -> Result<ExpressionType, TypecheckError> {
    if !(deref_fully(left) is Primitive) || !(deref_fully(right) is Primitive) {
        Err(TypecheckError::ArithmeticMismatch)
    } else if assignable(ctx, None, left, right) {
        Ok(left)
    } else if assignable(ctx, None, right, left) {
        Ok(right)
    } else {
        Err(TypecheckError::ArithmeticMismatch)
    }
}

/// The type of `left op right` for an arithmetic operator.
pub fn typecheck_arithmetic(
    ctx: &DeclarationContext,
    left: &ExpressionType,
    right: &ExpressionType,
) -> (r: Result<ExpressionType, TypecheckError>)
    ensures
        r == arithmetic_type(ctx, *left, *right),
{
    let left_primitive = match fully_dereference(left) {
        ExpressionType::Primitive(_) => true,
        _ => false,
    };
    let right_primitive = match fully_dereference(right) {
        ExpressionType::Primitive(_) => true,
        _ => false,
    };
    if !left_primitive || !right_primitive {
        Err(TypecheckError::ArithmeticMismatch)
    } else if is_assignable_to(ctx, None, left, right) {
        Ok(left.duplicate())
    } else if is_assignable_to(ctx, None, right, left) {
        Ok(right.duplicate())
    } else {
        Err(TypecheckError::ArithmeticMismatch)
    }
}

/// The type of a comparison: a boolean, where both sides read through to
/// primitives.
pub fn typecheck_comparison(left: &ExpressionType, right: &ExpressionType) -> (r: Result<
    ExpressionType,
    TypecheckError,
>)
    ensures
        r == if deref_fully(*left) is Primitive && deref_fully(*right) is Primitive {
            Ok::<ExpressionType, TypecheckError>(ExpressionType::Primitive(PrimitiveType::Bool))
        } else {
            Err::<ExpressionType, TypecheckError>(TypecheckError::ArithmeticMismatch)
        },
{
    let left_primitive = match fully_dereference(left) {
        ExpressionType::Primitive(_) => true,
        _ => false,
    };
    let right_primitive = match fully_dereference(right) {
        ExpressionType::Primitive(_) => true,
        _ => false,
    };
    if left_primitive && right_primitive {
        Ok(ExpressionType::Primitive(PrimitiveType::Bool))
    } else {
        Err(TypecheckError::ArithmeticMismatch)
    }
}

/// The type of `left ?? right`: what the nullable on the left holds,
/// where that accepts the right side.
pub open spec fn null_coalesce_type(
    ctx: &DeclarationContext,
    left: ExpressionType,
    right: ExpressionType,
) -> Result<ExpressionType, TypecheckError> {
    match left {
        ExpressionType::Nullable(inner) => if assignable(ctx, None, *inner, right) {
            Ok(*inner)
        } else {
            Err(TypecheckError::TypeMismatch { expected: *inner, received: right })
        },
        _ => Err(TypecheckError::ExpectedNullableLHS),
    }
}

/// The type of `left ?? right`.
pub fn typecheck_null_coalesce(
    ctx: &DeclarationContext,
    left: &ExpressionType,
    right: &ExpressionType,
) -> (r: Result<ExpressionType, TypecheckError>)
    ensures
        r == null_coalesce_type(ctx, *left, *right),
{
    match left {
        ExpressionType::Nullable(inner) => match assert_assignable_to(ctx, inner, right) {
            Ok(()) => Ok(inner.duplicate()),
            Err(e) => Err(e),
        },
        _ => Err(TypecheckError::ExpectedNullableLHS),
    }
}

/// Whether the name is among the names given.
pub open spec fn is_named(names: Seq<String>, name: Seq<char>) -> bool {
    exists|j: int| 0 <= j < names.len() && (#[trigger] names[j])@ == name
}

/// Whether the name is among the names given.
pub fn has_name(names: &Vec<String>, name: &String) -> (r: bool)
    ensures
        r == is_named(names@, name@),
{
    let mut j: usize = 0;
    while j < names.len()
        invariant
            0 <= j <= names.len(),
            forall|k: int| 0 <= k < j ==> (#[trigger] names@[k])@ != name@,
        decreases names.len() - j,
    {
        if names[j] == *name {
            return true;
        }
        j = j + 1;
    }
    false
}

/// Whether the cases of a `match` cover the union: every variant is
/// among the variants matched against.
pub open spec fn is_exhaustive(un: UnionType, matched: Seq<String>) -> bool {
    forall|i: int|
        #![trigger un.variants@[i]]
        0 <= i < un.variants@.len() ==> is_named(matched, un.variants@[i].0@)
}

/// The first variant of the union that no case of a `match` covers, by
/// its position; none where the cases cover the union.
pub fn first_unmatched_variant(un: &UnionType, matched: &Vec<String>) -> (r: Option<usize>)
    ensures
        r.is_none() == is_exhaustive(*un, matched@),
        r matches Some(i) ==> i < un.variants@.len() && !is_named(matched@, un.variants@[i as int].0@)
            && forall|k: int|
            #![trigger un.variants@[k]]
            0 <= k < i ==> is_named(matched@, un.variants@[k].0@),
{
    let mut i: usize = 0;
    while i < un.variants.len()
        invariant
            0 <= i <= un.variants.len(),
            forall|k: int|
                #![trigger un.variants@[k]]
                0 <= k < i ==> is_named(matched@, un.variants@[k].0@),
        decreases un.variants.len() - i,
    {
        if !has_name(matched, &un.variants[i].0) {
            return Some(i);
        }
        i = i + 1;
    }
    None
}

/// Checks that the cases of a `match` cover the union: `matched` are the
/// variants that the cases name.
pub fn typecheck_match_coverage(un: &UnionType, matched: &Vec<String>) -> (r: Result<
    (),
    TypecheckError,
>)
    ensures
        r == if is_exhaustive(*un, matched@) {
            Ok::<(), TypecheckError>(())
        } else {
            Err::<(), TypecheckError>(TypecheckError::NonExhaustiveCase)
        },
{
    match first_unmatched_variant(un, matched) {
        None => Ok(()),
        Some(_) => Err(TypecheckError::NonExhaustiveCase),
    }
}

/// The variants that the first `n` cases name, case after case.
pub open spec fn variants_named(cases: Seq<Seq<String>>, n: int) -> Seq<String>
    decreases n,
{
    if n <= 0 {
        Seq::empty()
    } else {
        variants_named(cases, n - 1) + cases[n - 1]
    }
}

/// The case that is taken for a value of the variant `name`: the first
/// case from `from` on that names the variant.
pub open spec fn case_taken(cases: Seq<Seq<String>>, name: Seq<char>, from: int) -> Option<int>
    decreases cases.len() - from,
{
    if from < 0 || from >= cases.len() {
        None
    } else if is_named(cases[from], name) {
        Some(from)
    } else {
        case_taken(cases, name, from + 1)
    }
}

/// A variant that is among those that the first `n` cases name is named
/// by one of these cases.
pub proof fn lemma_named_by_a_case(cases: Seq<Seq<String>>, name: Seq<char>, n: int)
    requires
        0 <= n <= cases.len(),
        is_named(variants_named(cases, n), name),
    ensures
        exists|c: int| 0 <= c < n && is_named(#[trigger] cases[c], name),
    decreases n,
{
    let all = variants_named(cases, n);
    let j = choose|j: int| 0 <= j < all.len() && (#[trigger] all[j])@ == name;
    if n > 0 {
        let before = variants_named(cases, n - 1);
        if j < before.len() {
            assert(before[j] == all[j]);
            lemma_named_by_a_case(cases, name, n - 1);
        } else {
            assert(cases[n - 1][j - before.len()] == all[j]);
            assert(is_named(cases[n - 1], name));
        }
    }
}

/// Where a case from `from` on names the variant, a case is taken: one
/// that names the variant, and the first that does.
pub proof fn lemma_case_is_taken(cases: Seq<Seq<String>>, name: Seq<char>, from: int, c: int)
    requires
        0 <= from <= c < cases.len(),
        is_named(cases[c], name),
    ensures
        case_taken(cases, name, from) matches Some(taken) && from <= taken <= c && is_named(
            cases[taken],
            name,
        ) && forall|earlier: int| from <= earlier < taken ==> !is_named(#[trigger] cases[earlier], name),
    decreases c - from,
{
    if !is_named(cases[from], name) {
        lemma_case_is_taken(cases, name, from + 1, c);
        let taken = case_taken(cases, name, from + 1).unwrap();
        assert forall|earlier: int| from <= earlier < taken implies !is_named(
            #[trigger] cases[earlier],
            name,
        ) by {}
    }
}

/// Where the cases of a `match` cover the union, every value of the
/// union runs the body of one case: for each variant a case is taken,
/// which names the variant, and it is the first that does, so no other
/// case is taken for the variant.
pub proof fn lemma_exhaustive_match_takes_one_case(un: UnionType, cases: Seq<Seq<String>>, tag: int)
    requires
        is_exhaustive(un, variants_named(cases, cases.len() as int)),
        0 <= tag < un.variants@.len(),
    ensures
        case_taken(cases, un.variants@[tag].0@, 0) matches Some(taken) && 0 <= taken < cases.len()
            && is_named(cases[taken], un.variants@[tag].0@) && forall|earlier: int|
            0 <= earlier < taken ==> !is_named(#[trigger] cases[earlier], un.variants@[tag].0@),
{
    let name = un.variants@[tag].0@;
    assert(is_named(variants_named(cases, cases.len() as int), un.variants@[tag].0@));
    lemma_named_by_a_case(cases, name, cases.len() as int);
    let c = choose|c: int| 0 <= c < cases.len() && is_named(#[trigger] cases[c], name);
    lemma_case_is_taken(cases, name, 0, c);
}

/// The type under which a case of a `match` binds the payload of a
/// variant: the payload's own, behind a pointer of the scrutinee's kind
/// where the scrutinee is a pointer.
pub open spec fn binding_type(scrutinee: ExpressionType, payload: ExpressionType) -> ExpressionType {
    match scrutinee {
        ExpressionType::Pointer(kind, _) => ExpressionType::Pointer(kind, Box::new(payload)),
        _ => payload,
    }
}

/// The type under which a case of a `match` binds the payload of a
/// variant.
pub fn case_binding_type(scrutinee: &ExpressionType, payload: &ExpressionType) -> (r:
    ExpressionType)
    ensures
        r == binding_type(*scrutinee, *payload),
{
    match scrutinee {
        ExpressionType::Pointer(kind, _) => ExpressionType::Pointer(
            *kind,
            Box::new(payload.duplicate()),
        ),
        _ => payload.duplicate(),
    }
}

/// The union that a `match` on a value of type `scrutinee` goes by: the
/// scrutinee, read through one pointer, must be a value of a declared
/// union.
pub fn match_union<'a>(ctx: &'a DeclarationContext, scrutinee: &ExpressionType) -> (r: Result<
    &'a UnionType,
    TypecheckError,
>)
    ensures
        match deref_once(*scrutinee) {
            ExpressionType::InstanceOf(id) => match ctx.spec_decl(id) {
                Some(TypeDeclaration::Union(un)) => r matches Ok(found) && *found == un,
                _ => r == Err::<&UnionType, TypecheckError>(
                    TypecheckError::CaseStatementRequiresUnion,
                ),
            },
            _ => r == Err::<&UnionType, TypecheckError>(
                TypecheckError::CaseStatementRequiresUnion,
            ),
        },
{
    match shallow_dereference(scrutinee) {
        ExpressionType::InstanceOf(id) => match ctx.decl(*id) {
            Some(TypeDeclaration::Union(un)) => Ok(un),
            _ => Err(TypecheckError::CaseStatementRequiresUnion),
        },
        _ => Err(TypecheckError::CaseStatementRequiresUnion),
    }
}

/// Whether some child up to and including the one at `i` never returns.
pub open spec fn unreachable_by(children: Seq<ExpressionType>, i: int) -> bool {
    exists|k: int| 0 <= k <= i && k < children.len() && #[trigger] children[k]
        == ExpressionType::Unreachable
}

/// Whether the child at `i` is not the last, can be reached and has a
/// value.
pub open spec fn offending_child(children: Seq<ExpressionType>, i: int) -> bool {
    0 <= i < children.len() - 1 && children[i] != ExpressionType::Void && !unreachable_by(
        children,
        i,
    )
}

/// The type of a block whose children have the given types, in order.
/// Every child but the last must be `Void`, up to the first that never
/// returns: the first that is not is reported, with its position. The
/// block has the type of its last child, which may be no pointer, or
/// `Unreachable` if a child never returns; an empty block is `Void`.
pub open spec fn block_type(children: Seq<ExpressionType>) -> Result<
    ExpressionType,
    (int, TypecheckError),
> {
    if exists|i: int| offending_child(children, i) {
        let i = choose|i: int| offending_child(children, i) && forall|k: int|
            0 <= k < i ==> !offending_child(children, k);
        Err(
            (
                i,
                TypecheckError::TypeMismatch {
                    expected: ExpressionType::Void,
                    received: children[i],
                },
            ),
        )
    } else if children.len() == 0 {
        Ok(ExpressionType::Void)
    } else if unreachable_by(children, children.len() - 1) {
        Ok(ExpressionType::Unreachable)
    } else if children.last() is Pointer {
        Err((children.len() - 1, TypecheckError::IllegalFirstClassReference))
    } else {
        Ok(children.last())
    }
}

/// The type of a block whose children have the given types; see
/// `block_type`.
pub fn typecheck_block(children: &Vec<ExpressionType>) -> (r: Result<
    ExpressionType,
    (usize, TypecheckError),
>)
    ensures
        match block_type(children@) {
            Ok(ty) => r == Ok::<ExpressionType, (usize, TypecheckError)>(ty),
            Err((i, e)) => r matches Err((at, found)) && at == i && found == e,
        },
{
    let n: usize = children.len();
    if n == 0 {
        assert(!(exists|k: int| offending_child(children@, k)));
        return Ok(ExpressionType::Void);
    }
    let mut i: usize = 0;
    while i < n - 1
        invariant
            0 <= i <= n - 1,
            n == children@.len(),
            forall|k: int| 0 <= k < i ==> !offending_child(children@, k),
            !unreachable_by(children@, i - 1),
        decreases n - i,
    {
        match &children[i] {
            ExpressionType::Void => {},
            ExpressionType::Unreachable => {
                proof {
                    assert(unreachable_by(children@, i as int));
                    assert forall|k: int| !offending_child(children@, k) by {
                        if i <= k < n - 1 {
                            assert(unreachable_by(children@, k));
                        }
                    }
                    assert(unreachable_by(children@, n - 1));
                }
                return Ok(ExpressionType::Unreachable);
            },
            _ => {
                proof {
                    assert(offending_child(children@, i as int));
                    let w = choose|w: int| offending_child(children@, w) && forall|k: int|
                        0 <= k < w ==> !offending_child(children@, k);
                    assert(w == i);
                }
                return Err(
                    (
                        i,
                        TypecheckError::TypeMismatch {
                            expected: ExpressionType::Void,
                            received: children[i].duplicate(),
                        },
                    ),
                );
            },
        }
        i = i + 1;
    }
    assert(!(exists|k: int| offending_child(children@, k)));
    match &children[n - 1] {
        ExpressionType::Unreachable => {
            assert(unreachable_by(children@, n - 1));
            Ok(ExpressionType::Unreachable)
        },
        ExpressionType::Pointer(_, _) => Err((n - 1, TypecheckError::IllegalFirstClassReference)),
        _ => Ok(children[n - 1].duplicate()),
    }
}

/// The parameters that the arguments of a call are held against: for an
/// associated function, those after `self`.
pub open spec fn call_params(func: FuncType) -> Seq<ExpressionType> {
    if func.is_associated {
        func.params@.skip(1)
    } else {
        func.params@
    }
}

/// The binding table before any argument is looked at: one unbound slot
/// for each generic parameter, and for an associated function called on
/// a receiver, what `self` against the receiver binds.
pub open spec fn initial_table(func: FuncType, receiver: Option<ExpressionType>) -> Seq<
    ExpressionType,
> {
    let unbound = Seq::new(func.type_param_count as nat, |i: int| ExpressionType::Unreachable);
    match receiver {
        Some(ty) => if func.is_associated && func.params@.len() > 0 {
            bind_generics(unbound, func.params@[0], ty)
        } else {
            unbound
        },
        None => unbound,
    }
}

/// The binding table after the first `n` arguments.
pub open spec fn table_after(
    func: FuncType,
    receiver: Option<ExpressionType>,
    args: Seq<ExpressionType>,
    n: int,
) -> Seq<ExpressionType>
    decreases n,
{
    if n <= 0 {
        initial_table(func, receiver)
    } else {
        bind_generics(
            table_after(func, receiver, args, n - 1),
            call_params(func)[n - 1],
            args[n - 1],
        )
    }
}

/// Whether the argument at `i` is not accepted by its parameter, under
/// the bindings made up to and including it.
pub open spec fn argument_rejected(
    ctx: &DeclarationContext,
    func: FuncType,
    receiver: Option<ExpressionType>,
    args: Seq<ExpressionType>,
    i: int,
) -> bool {
    0 <= i < args.len() && !assignable(
        ctx,
        Some(table_after(func, receiver, args, i + 1)),
        call_params(func)[i],
        args[i],
    )
}

/// The type of a call of `func` with arguments of the given types, on
/// `receiver` if it is called as a method. The count of the arguments
/// must be that of the parameters (after `self`, for an associated
/// function); each argument must be accepted by its parameter under the
/// bindings made so far, the first that is not is reported; the result
/// is what the function returns, with the bindings put in.
pub open spec fn call_type(
    ctx: &DeclarationContext,
    func: FuncType,
    receiver: Option<ExpressionType>,
    args: Seq<ExpressionType>,
) -> Result<ExpressionType, TypecheckError> {
    if func.is_associated && func.params@.len() == 0 {
        Err(TypecheckError::WrongArgsCount)
    } else if call_params(func).len() != args.len() {
        Err(TypecheckError::WrongArgsCount)
    } else if exists|i: int| argument_rejected(ctx, func, receiver, args, i) {
        let i = choose|i: int|
            argument_rejected(ctx, func, receiver, args, i) && forall|k: int|
                0 <= k < i ==> !argument_rejected(ctx, func, receiver, args, k);
        Err(TypecheckError::TypeMismatch { expected: call_params(func)[i], received: args[i] })
    } else {
        Ok(substituted(func.returns, table_after(func, receiver, args, args.len() as int)))
    }
}

/// The call is refused at the first argument that its parameter does not
/// accept.
pub proof fn lemma_call_refused_at(
    ctx: &DeclarationContext,
    func: FuncType,
    receiver: Option<ExpressionType>,
    args: Seq<ExpressionType>,
    i: int,
)
    requires
        !(func.is_associated && func.params@.len() == 0),
        call_params(func).len() == args.len(),
        argument_rejected(ctx, func, receiver, args, i),
        forall|k: int| 0 <= k < i ==> !argument_rejected(ctx, func, receiver, args, k),
    ensures
        call_type(ctx, func, receiver, args) == Err::<ExpressionType, TypecheckError>(
            TypecheckError::TypeMismatch { expected: call_params(func)[i], received: args[i] },
        ),
{
    let w = choose|w: int|
        argument_rejected(ctx, func, receiver, args, w) && forall|k: int|
            0 <= k < w ==> !argument_rejected(ctx, func, receiver, args, k);
    assert(w == i);
}

/// The call is accepted where every argument is.
pub proof fn lemma_call_accepted(
    ctx: &DeclarationContext,
    func: FuncType,
    receiver: Option<ExpressionType>,
    args: Seq<ExpressionType>,
)
    requires
        !(func.is_associated && func.params@.len() == 0),
        call_params(func).len() == args.len(),
        forall|k: int| 0 <= k < args.len() ==> !argument_rejected(ctx, func, receiver, args, k),
    ensures
        call_type(ctx, func, receiver, args) == Ok::<ExpressionType, TypecheckError>(
            substituted(func.returns, table_after(func, receiver, args, args.len() as int)),
        ),
{
}

/// The type of a call; see `call_type`.
pub fn typecheck_call(
    ctx: &DeclarationContext,
    func: &FuncType,
    receiver: Option<&ExpressionType>,
    args: &Vec<ExpressionType>,
) -> (r: Result<ExpressionType, TypecheckError>)
    ensures
        r == call_type(
            ctx,
            *func,
            match receiver {
                Some(ty) => Some(*ty),
                None => None,
            },
            args@,
        ),
{
    let ghost recv = match receiver {
        Some(ty) => Some(*ty),
        None => None,
    };
    let mut table: Vec<ExpressionType> = Vec::new();
    let mut t: usize = 0;
    while t < func.type_param_count
        invariant
            0 <= t <= func.type_param_count,
            table@ == Seq::new(t as nat, |i: int| ExpressionType::Unreachable),
        decreases func.type_param_count - t,
    {
        table.push(ExpressionType::Unreachable);
        t = t + 1;
        assert(table@ =~= Seq::new(t as nat, |i: int| ExpressionType::Unreachable));
    }
    let first: usize = if func.is_associated {
        if func.params.len() == 0 {
            return Err(TypecheckError::WrongArgsCount);
        }
        match receiver {
            Some(ty) => {
                find_generic_bindings(&mut table, &func.params[0], ty);
            },
            None => {},
        }
        1
    } else {
        0
    };
    assert(table@ == initial_table(*func, recv));
    if func.params.len() - first != args.len() {
        return Err(TypecheckError::WrongArgsCount);
    }
    let mut i: usize = 0;
    while i < args.len()
        invariant
            0 <= i <= args.len(),
            first == if func.is_associated {
                1usize
            } else {
                0usize
            },
            recv == match receiver {
                Some(ty) => Some(*ty),
                None => None,
            },
            first <= func.params@.len(),
            func.params@.len() - first == args@.len(),
            call_params(*func).len() == args@.len(),
            table@ == table_after(*func, recv, args@, i as int),
            forall|k: int| 0 <= k < i ==> !argument_rejected(ctx, *func, recv, args@, k),
        decreases args.len() - i,
    {
        let param = &func.params[first + i];
        assert(*param == call_params(*func)[i as int]);
        find_generic_bindings(&mut table, param, &args[i]);
        assert(table@ == table_after(*func, recv, args@, i + 1));
        if !is_assignable_to(ctx, Some(&table), param, &args[i]) {
            proof {
                lemma_call_refused_at(ctx, *func, recv, args@, i as int);
            }
            return Err(
                TypecheckError::TypeMismatch {
                    expected: param.duplicate(),
                    received: args[i].duplicate(),
                },
            );
        }
        i = i + 1;
    }
    proof {
        lemma_call_accepted(ctx, *func, recv, args@);
    }
    Ok(resolve_generics(&func.returns, &table))
}

/// What a name after a dot means on a value of a declared type: a field
/// of a struct, else an associated function of a struct or of an
/// interface.
pub open spec fn field_access(decl: TypeDeclaration, name: Seq<char>) -> Result<
    ExpressionType,
    TypecheckError,
> {
    match decl {
        TypeDeclaration::Struct(st) => match name_index(st.fields@, name) {
            Some(i) => Ok(st.fields@[i].1),
            None => match name_index(st.associated_functions@, name) {
                Some(j) => Ok(ExpressionType::ReferenceToFunction(st.associated_functions@[j].1)),
                None => Err(TypecheckError::FieldNotPresent),
            },
        },
        TypeDeclaration::Interface(it) => match name_index(it.associated_functions@, name) {
            Some(j) => Ok(ExpressionType::ReferenceToFunction(it.associated_functions@[j].1)),
            None => Err(TypecheckError::FieldNotPresent),
        },
        _ => Err(TypecheckError::FieldNotPresent),
    }
}

/// The method of a collection that the name stands for.
pub open spec fn intrinsic_named(table: Seq<(String, CollectionIntrinsic)>, name: Seq<char>) -> Result<
    ExpressionType,
    TypecheckError,
> {
    match name_index(table, name) {
        Some(i) => Ok(ExpressionType::ReferenceToFunction(table[i].1.fn_id)),
        None => Err(TypecheckError::FieldNotPresent),
    }
}

/// The type of `left.name`, where `left` has the given type. Pointers
/// are read through. On a value of a declared type the name is a field
/// or a method; on a union as a type, a variant: its constructor if it
/// has a payload, else a value of the union; on a module, an export; on
/// a collection, one of its methods.
pub open spec fn dot_type(ctx: &DeclarationContext, left: ExpressionType, name: Seq<char>) -> Result<
    ExpressionType,
    TypecheckError,
> {
    match deref_fully(left) {
        ExpressionType::InstanceOf(id) => match ctx.spec_decl(id) {
            Some(decl) => field_access(decl, name),
            None => Err(TypecheckError::IllegalDotLHS),
        },
        ExpressionType::ReferenceToType(id) => match ctx.spec_decl(id) {
            Some(TypeDeclaration::Union(un)) => match name_index(un.variants@, name) {
                Some(i) => match un.variants@[i].1 {
                    Some(payload) => Ok(
                        ExpressionType::FunctionReference {
                            parameters: ParameterList::Cons(
                                Box::new(payload),
                                Box::new(ParameterList::Nil),
                            ),
                            returns: Box::new(ExpressionType::InstanceOf(id)),
                        },
                    ),
                    None => Ok(ExpressionType::InstanceOf(id)),
                },
                None => Err(TypecheckError::FieldNotPresent),
            },
            Some(TypeDeclaration::Module(module)) => match name_index(module.exports@, name) {
                Some(i) => Ok(module.exports@[i].1.ty),
                None => Err(TypecheckError::ExportNotFound),
            },
            _ => Err(TypecheckError::IllegalDotLHS),
        },
        ExpressionType::Collection(CollectionType::Array(_)) => intrinsic_named(
            ctx.array_intrinsics@,
            name,
        ),
        ExpressionType::Collection(CollectionType::Dict(_, _)) => intrinsic_named(
            ctx.dict_intrinsics@,
            name,
        ),
        ExpressionType::Collection(CollectionType::ReferenceCounter(_)) => intrinsic_named(
            ctx.rc_intrinsics@,
            name,
        ),
        ExpressionType::Collection(CollectionType::Cell(_)) => intrinsic_named(
            ctx.cell_intrinsics@,
            name,
        ),
        _ => Err(TypecheckError::IllegalDotLHS),
    }
}

fn lookup_intrinsic(table: &Vec<(String, CollectionIntrinsic)>, name: &String) -> (r: Result<
    ExpressionType,
    TypecheckError,
>)
    ensures
        r == intrinsic_named(table@, name@),
{
    match find_name(table, name) {
        Some(i) => Ok(ExpressionType::ReferenceToFunction(table[i].1.fn_id)),
        None => Err(TypecheckError::FieldNotPresent),
    }
}

fn access_field(decl: &TypeDeclaration, name: &String) -> (r: Result<
    ExpressionType,
    TypecheckError,
>)
    ensures
        r == field_access(*decl, name@),
{
    match decl {
        TypeDeclaration::Struct(st) => match find_name(&st.fields, name) {
            Some(i) => Ok(st.fields[i].1.duplicate()),
            None => match find_name(&st.associated_functions, name) {
                Some(j) => Ok(ExpressionType::ReferenceToFunction(st.associated_functions[j].1)),
                None => Err(TypecheckError::FieldNotPresent),
            },
        },
        TypeDeclaration::Interface(it) => match find_name(&it.associated_functions, name) {
            Some(j) => Ok(ExpressionType::ReferenceToFunction(it.associated_functions[j].1)),
            None => Err(TypecheckError::FieldNotPresent),
        },
        _ => Err(TypecheckError::FieldNotPresent),
    }
}

/// The type of `left.name`; see `dot_type`.
pub fn typecheck_dot(ctx: &DeclarationContext, left: &ExpressionType, name: &String) -> (r: Result<
    ExpressionType,
    TypecheckError,
>)
    ensures
        r == dot_type(ctx, *left, name@),
{
    match fully_dereference(left) {
        ExpressionType::InstanceOf(id) => match ctx.decl(*id) {
            Some(decl) => access_field(decl, name),
            None => Err(TypecheckError::IllegalDotLHS),
        },
        ExpressionType::ReferenceToType(id) => match ctx.decl(*id) {
            Some(TypeDeclaration::Union(un)) => match find_name(&un.variants, name) {
                Some(i) => match &un.variants[i].1 {
                    Some(payload) => Ok(
                        ExpressionType::FunctionReference {
                            parameters: ParameterList::single(payload.duplicate()),
                            returns: Box::new(ExpressionType::InstanceOf(*id)),
                        },
                    ),
                    None => Ok(ExpressionType::InstanceOf(*id)),
                },
                None => Err(TypecheckError::FieldNotPresent),
            },
            Some(TypeDeclaration::Module(module)) => match find_name(&module.exports, name) {
                Some(i) => Ok(module.exports[i].1.ty.duplicate()),
                None => Err(TypecheckError::ExportNotFound),
            },
            _ => Err(TypecheckError::IllegalDotLHS),
        },
        ExpressionType::Collection(CollectionType::Array(_)) => lookup_intrinsic(
            &ctx.array_intrinsics,
            name,
        ),
        ExpressionType::Collection(CollectionType::Dict(_, _)) => lookup_intrinsic(
            &ctx.dict_intrinsics,
            name,
        ),
        ExpressionType::Collection(CollectionType::ReferenceCounter(_)) => lookup_intrinsic(
            &ctx.rc_intrinsics,
            name,
        ),
        ExpressionType::Collection(CollectionType::Cell(_)) => lookup_intrinsic(
            &ctx.cell_intrinsics,
            name,
        ),
        _ => Err(TypecheckError::IllegalDotLHS),
    }
}

/// The type of `left.right`, where `left` has the given type and `name`
/// is the name on the right, if what stands there is a name: only a
/// name can follow the dot. See `dot_type`.
pub fn typecheck_dot_expression(
    ctx: &DeclarationContext,
    left: &ExpressionType,
    name: Option<&String>,
) -> (r: Result<ExpressionType, TypecheckError>)
    ensures
        r == match name {
            Some(n) => dot_type(ctx, *left, n@),
            None => Err::<ExpressionType, TypecheckError>(TypecheckError::IllegalDotRHS),
        },
{
    match name {
        Some(n) => typecheck_dot(ctx, left, n),
        None => Err(TypecheckError::IllegalDotRHS),
    }
}

/// What stands as the value of a constant, as far as the rules on
/// constants look at it.
#[derive(Copy, Clone, Debug, PartialEq, Eq, Structural)]
pub enum Initializer {
    /// A number, a boolean, `null`, a character or a string.
    Literal,
    RecordLiteral,
    DictLiteral,
    ArrayLiteral,
    /// Anything that is computed.
    Other,
}

/// The type under which a constant with the declared type `hint` and a
/// value of type `value` is bound: the declared type. The value must be
/// written as a literal, and the declared type must accept it; the
/// first of the two that fails is reported.
pub open spec fn constant_type(
    ctx: &DeclarationContext,
    initializer: Initializer,
    hint: ExpressionType,
    value: ExpressionType,
) -> Result<ExpressionType, TypecheckError> {
    if initializer == Initializer::Other {
        Err(TypecheckError::NonConstantInConst)
    } else if assignable(ctx, None, hint, value) {
        Ok(hint)
    } else {
        Err(TypecheckError::TypeMismatch { expected: hint, received: value })
    }
}

/// The type under which a constant is bound; see `constant_type`.
pub fn typecheck_const(
    ctx: &DeclarationContext,
    initializer: Initializer,
    hint: &ExpressionType,
    value: &ExpressionType,
) -> (r: Result<ExpressionType, TypecheckError>)
    ensures
        r == constant_type(ctx, initializer, *hint, *value),
{
    match initializer {
        Initializer::Other => Err(TypecheckError::NonConstantInConst),
        _ => match assert_assignable_to(ctx, hint, value) {
            Ok(()) => Ok(hint.duplicate()),
            Err(e) => Err(e),
        },
    }
}

/// What is wrong with assigning to a name of type `lhs`, if anything:
/// a type, a function, `Null`, `Void` and what never returns are no
/// places for a value, and nothing is written through a shared pointer.
/// A nullable goes by what it holds.
pub open spec fn assignment_lhs_type_error(lhs: ExpressionType) -> Option<TypecheckError>
    decreases lhs,
{
    match lhs {
        ExpressionType::Collection(_) => None,
        ExpressionType::InstanceOf(_) => None,
        ExpressionType::Primitive(_) => None,
        ExpressionType::Generator { .. } => None,
        ExpressionType::Pointer(PointerKind::Unique, _) => None,
        ExpressionType::Pointer(PointerKind::Shared, _) => Some(
            TypecheckError::IllegalSharedRefMutation,
        ),
        ExpressionType::Nullable(inner) => assignment_lhs_type_error(*inner),
        _ => Some(TypecheckError::IllegalAssignmentLHS),
    }
}

/// Checks the type of a name that is assigned to; see
/// `assignment_lhs_type_error`.
pub fn validate_assignment_lhs_ty(lhs: &ExpressionType) -> (r: Result<(), TypecheckError>)
    ensures
        match assignment_lhs_type_error(*lhs) {
            Some(e) => r == Err::<(), TypecheckError>(e),
            None => r.is_ok(),
        },
    decreases *lhs,
{
    match lhs {
        ExpressionType::Collection(_) => Ok(()),
        ExpressionType::InstanceOf(_) => Ok(()),
        ExpressionType::Primitive(_) => Ok(()),
        ExpressionType::Generator { .. } => Ok(()),
        ExpressionType::Pointer(PointerKind::Unique, _) => Ok(()),
        ExpressionType::Pointer(PointerKind::Shared, _) => Err(
            TypecheckError::IllegalSharedRefMutation,
        ),
        ExpressionType::Nullable(inner) => validate_assignment_lhs_ty(inner),
        _ => Err(TypecheckError::IllegalAssignmentLHS),
    }
}

/// What is wrong with assigning to a place of type `lhs`, if anything:
/// a reference is bound once and never assigned to; a type, a function,
/// `Null`, `Void` and what never returns are no places for a value. A
/// nullable goes by what it holds.
pub open spec fn reference_assignment_error(lhs: ExpressionType) -> Option<TypecheckError>
    decreases lhs,
{
    match lhs {
        ExpressionType::Collection(_) => None,
        ExpressionType::InstanceOf(_) => None,
        ExpressionType::Primitive(_) => None,
        ExpressionType::Generator { .. } => None,
        ExpressionType::Pointer(_, _) => Some(TypecheckError::CantAssignToReference),
        ExpressionType::Nullable(inner) => reference_assignment_error(*inner),
        _ => Some(TypecheckError::IllegalAssignmentLHS),
    }
}

/// Checks that no reference is assigned to; see
/// `reference_assignment_error`.
pub fn ensure_no_assignment_to_reference(lhs: &ExpressionType) -> (r: Result<(), TypecheckError>)
    ensures
        match reference_assignment_error(*lhs) {
            Some(e) => r == Err::<(), TypecheckError>(e),
            None => r.is_ok(),
        },
    decreases *lhs,
{
    match lhs {
        ExpressionType::Collection(_) => Ok(()),
        ExpressionType::InstanceOf(_) => Ok(()),
        ExpressionType::Primitive(_) => Ok(()),
        ExpressionType::Generator { .. } => Ok(()),
        ExpressionType::Pointer(_, _) => Err(TypecheckError::CantAssignToReference),
        ExpressionType::Nullable(inner) => ensure_no_assignment_to_reference(inner),
        _ => Err(TypecheckError::IllegalAssignmentLHS),
    }
}

/// An expression as the rules on places see it: a name with its type,
/// what a pointer of some kind points to, a field or an element of
/// something, or anything else.
#[derive(Debug, PartialEq, Eq)]
pub enum LvalueShape {
    Name(ExpressionType),
    Dereference { kind: PointerKind, inner: Box<LvalueShape> },
    Access(Box<LvalueShape>),
    Other,
}

/// Whether the expression designates a place that may be borrowed: a
/// name, what a unique pointer that is such a place points to, or a
/// field or an element of such a place.
pub open spec fn is_lvalue(shape: LvalueShape) -> bool
    decreases shape,
{
    match shape {
        LvalueShape::Name(_) => true,
        LvalueShape::Dereference { kind, inner } => kind == PointerKind::Unique && is_lvalue(
            *inner,
        ),
        LvalueShape::Access(inner) => is_lvalue(*inner),
        LvalueShape::Other => false,
    }
}

/// Whether the expression designates a place that may be borrowed.
pub fn validate_lvalue(shape: &LvalueShape) -> (r: bool)
    ensures
        r == is_lvalue(*shape),
    decreases *shape,
{
    match shape {
        LvalueShape::Name(_) => true,
        LvalueShape::Dereference { kind, inner } => match kind {
            PointerKind::Unique => validate_lvalue(inner),
            PointerKind::Shared => false,
        },
        LvalueShape::Access(inner) => validate_lvalue(inner),
        LvalueShape::Other => false,
    }
}

/// What is wrong with assigning to a name of type `lhs`, as a list of
/// no error or one.
pub open spec fn lhs_type_errors(lhs: ExpressionType) -> Seq<TypecheckError> {
    match assignment_lhs_type_error(lhs) {
        Some(e) => seq![e],
        None => Seq::empty(),
    }
}

/// All that is wrong with the expression as the target of an
/// assignment, from the outside in: every shared pointer that is written
/// through on the way, then what is wrong with the name at the root;
/// what is no place is no target at all.
pub open spec fn assignment_lhs_errors(shape: LvalueShape) -> Seq<TypecheckError>
    decreases shape,
{
    match shape {
        LvalueShape::Name(ty) => lhs_type_errors(ty),
        LvalueShape::Dereference { kind, inner } => if kind == PointerKind::Shared {
            seq![TypecheckError::IllegalSharedRefMutation] + assignment_lhs_errors(*inner)
        } else {
            assignment_lhs_errors(*inner)
        },
        LvalueShape::Access(inner) => assignment_lhs_errors(*inner),
        LvalueShape::Other => seq![TypecheckError::IllegalAssignmentLHS],
    }
}

/// Checks the target of an assignment: adds all that is wrong with it
/// to the errors that were there; see `assignment_lhs_errors`.
pub fn validate_assignment_lhs(shape: &LvalueShape, errors: &mut Vec<TypecheckError>)
    ensures
        final(errors)@ == old(errors)@ + assignment_lhs_errors(*shape),
    decreases *shape,
{
    let ghost reported = errors@;
    match shape {
        LvalueShape::Name(ty) => match validate_assignment_lhs_ty(ty) {
            Ok(()) => {
                assert(errors@ =~= reported + assignment_lhs_errors(*shape));
            },
            Err(e) => {
                errors.push(e);
                assert(errors@ =~= reported + assignment_lhs_errors(*shape));
            },
        },
        LvalueShape::Dereference { kind, inner } => {
            match kind {
                PointerKind::Shared => {
                    errors.push(TypecheckError::IllegalSharedRefMutation);
                },
                PointerKind::Unique => {},
            }
            validate_assignment_lhs(inner, errors);
            assert(errors@ =~= reported + assignment_lhs_errors(*shape));
        },
        LvalueShape::Access(inner) => {
            validate_assignment_lhs(inner, errors);
        },
        LvalueShape::Other => {
            errors.push(TypecheckError::IllegalAssignmentLHS);
            assert(errors@ =~= reported + assignment_lhs_errors(*shape));
        },
    }
}

/// The type of the name at the root of the expression, if it has one.
pub open spec fn root_type(shape: LvalueShape) -> Option<ExpressionType>
    decreases shape,
{
    match shape {
        LvalueShape::Name(ty) => Some(ty),
        LvalueShape::Dereference { kind, inner } => root_type(*inner),
        LvalueShape::Access(inner) => root_type(*inner),
        LvalueShape::Other => None,
    }
}

/// Where a place may be borrowed, every pointer that is read through on
/// the way to it is unique: whether it may be written to is decided by
/// the type of the name at its root alone.
pub proof fn lemma_lvalue_goes_by_its_root(shape: LvalueShape)
    requires
        is_lvalue(shape),
    ensures
        root_type(shape) is Some,
        assignment_lhs_errors(shape) == lhs_type_errors(root_type(shape).unwrap()),
    decreases shape,
{
    match shape {
        LvalueShape::Dereference { kind, inner } => {
            lemma_lvalue_goes_by_its_root(*inner);
        },
        LvalueShape::Access(inner) => {
            lemma_lvalue_goes_by_its_root(*inner);
        },
        _ => {},
    }
}

/// What is wrong where a value of type `right` is held against a place
/// of type `left`, as a list of no error or one.
pub open spec fn mismatch_errors(ctx: &DeclarationContext, left: ExpressionType, right: ExpressionType) -> Seq<
    TypecheckError,
> {
    if assignable(ctx, None, left, right) {
        Seq::empty()
    } else {
        seq![TypecheckError::TypeMismatch { expected: left, received: right }]
    }
}

/// What is wrong with assigning to a place of type `left` because it is
/// a reference, as a list of no error or one.
pub open spec fn reference_errors(left: ExpressionType) -> Seq<TypecheckError> {
    match reference_assignment_error(left) {
        Some(e) => seq![e],
        None => Seq::empty(),
    }
}

/// All that is wrong with `left = right`: what is wrong with the left
/// side as a target, then with its type where it is a reference, then
/// with the right side where the left side does not accept it.
pub open spec fn assignment_errors(
    ctx: &DeclarationContext,
    shape: LvalueShape,
    left: ExpressionType,
    right: ExpressionType,
) -> Seq<TypecheckError> {
    assignment_lhs_errors(shape) + reference_errors(left) + mismatch_errors(ctx, left, right)
}

/// The type of `left = right`: `Void`, where nothing is wrong with it;
/// else all that is wrong, see `assignment_errors`.
pub fn typecheck_assignment(
    ctx: &DeclarationContext,
    shape: &LvalueShape,
    left: &ExpressionType,
    right: &ExpressionType,
) -> (r: Result<ExpressionType, Vec<TypecheckError>>)
    ensures
        match r {
            Ok(ty) => ty == ExpressionType::Void && assignment_errors(
                ctx,
                *shape,
                *left,
                *right,
            ).len() == 0,
            Err(errors) => errors@.len() > 0 && errors@ == assignment_errors(
                ctx,
                *shape,
                *left,
                *right,
            ),
        },
{
    let mut errors: Vec<TypecheckError> = Vec::new();
    validate_assignment_lhs(shape, &mut errors);
    match ensure_no_assignment_to_reference(left) {
        Ok(()) => {},
        Err(e) => {
            errors.push(e);
        },
    }
    match assert_assignable_to(ctx, left, right) {
        Ok(()) => {},
        Err(e) => {
            errors.push(e);
        },
    }
    assert(errors@ =~= assignment_errors(ctx, *shape, *left, *right));
    if errors.len() == 0 {
        Ok(ExpressionType::Void)
    } else {
        Err(errors)
    }
}

/// The type under which `let name: hint = value` binds the name: the
/// hint where there is one, which must accept the value, else the type
/// of the value, which must be one that a value can have. No name is
/// bound to a reference.
pub open spec fn declaration_type(
    ctx: &DeclarationContext,
    hint: Option<ExpressionType>,
    value: ExpressionType,
) -> Result<ExpressionType, TypecheckError> {
    if value is Pointer {
        Err(TypecheckError::IllegalFirstClassReference)
    } else {
        match hint {
            Some(ty) => if ty is Pointer {
                Err(TypecheckError::IllegalFirstClassReference)
            } else if assignable(ctx, None, ty, value) {
                Ok(ty)
            } else {
                Err(TypecheckError::TypeMismatch { expected: ty, received: value })
            },
            None => if value == ExpressionType::Null || value == ExpressionType::Unreachable
                || value == ExpressionType::Void {
                Err(TypecheckError::NoNullDeclarations)
            } else {
                Ok(value)
            },
        }
    }
}

/// The type under which a declaration binds its name; see
/// `declaration_type`.
pub fn typecheck_declaration(
    ctx: &DeclarationContext,
    hint: Option<&ExpressionType>,
    value: &ExpressionType,
) -> (r: Result<ExpressionType, TypecheckError>)
    ensures
        r == declaration_type(
            ctx,
            match hint {
                Some(ty) => Some(*ty),
                None => None,
            },
            *value,
        ),
{
    if value.is_pointer() {
        return Err(TypecheckError::IllegalFirstClassReference);
    }
    match hint {
        Some(ty) => {
            if ty.is_pointer() {
                Err(TypecheckError::IllegalFirstClassReference)
            } else {
                match assert_assignable_to(ctx, ty, value) {
                    Ok(()) => Ok(ty.duplicate()),
                    Err(e) => Err(e),
                }
            }
        },
        None => match value {
            ExpressionType::Null => Err(TypecheckError::NoNullDeclarations),
            ExpressionType::Unreachable => Err(TypecheckError::NoNullDeclarations),
            ExpressionType::Void => Err(TypecheckError::NoNullDeclarations),
            _ => Ok(value.duplicate()),
        },
    }
}

/// Checks a borrow binding: what is bound must take a reference, and
/// take it to a place. `taken` is the expression that the reference is
/// taken to, if one is taken.
pub fn typecheck_borrow(taken: Option<&LvalueShape>) -> (r: Result<(), TypecheckError>)
    ensures
        r == match taken {
            None => Err::<(), TypecheckError>(TypecheckError::IllegalNonRefBorrow),
            Some(shape) => if is_lvalue(*shape) {
                Ok::<(), TypecheckError>(())
            } else {
                Err::<(), TypecheckError>(TypecheckError::IllegalNonLvalueBorrow)
            },
        },
{
    match taken {
        None => Err(TypecheckError::IllegalNonRefBorrow),
        Some(shape) => if validate_lvalue(shape) {
            Ok(())
        } else {
            Err(TypecheckError::IllegalNonLvalueBorrow)
        },
    }
}

/// The type of `*value`: what a pointer points to, or what a reference
/// counter holds; nothing else is read through.
pub open spec fn dereferenced(value: ExpressionType) -> Result<ExpressionType, TypecheckError> {
    match value {
        ExpressionType::Pointer(_, inner) => Ok(*inner),
        ExpressionType::Collection(CollectionType::ReferenceCounter(inner)) => Ok(*inner),
        _ => Err(TypecheckError::DereferenceNonPointer),
    }
}

/// The type of `*value`; see `dereferenced`.
pub fn typecheck_dereference(value: &ExpressionType) -> (r: Result<ExpressionType, TypecheckError>)
    ensures
        r == dereferenced(*value),
{
    match value {
        ExpressionType::Pointer(_, inner) => Ok(inner.duplicate()),
        ExpressionType::Collection(CollectionType::ReferenceCounter(inner)) => Ok(
            inner.duplicate(),
        ),
        _ => Err(TypecheckError::DereferenceNonPointer),
    }
}

/// The type of a reference taken to a value of type `value`: a pointer
/// of the kind taken to it.
pub fn typecheck_take_reference(kind: PointerKind, value: &ExpressionType) -> (r: ExpressionType)
    ensures
        r == ExpressionType::Pointer(kind, Box::new(*value)),
{
    ExpressionType::Pointer(kind, Box::new(value.duplicate()))
}

/// Whether the field of the struct at `i` is refused: the literal does
/// not give it, or gives it a value that its type does not accept.
pub open spec fn field_refused(
    ctx: &DeclarationContext,
    st: StructType,
    given: Seq<(String, ExpressionType)>,
    i: int,
) -> Option<TypecheckError> {
    match name_index(given, st.fields@[i].0@) {
        None => Some(TypecheckError::MissingField),
        Some(j) => if assignable(ctx, None, st.fields@[i].1, given[j].1) {
            None
        } else {
            Some(
                TypecheckError::TypeMismatch { expected: st.fields@[i].1, received: given[j].1 },
            )
        },
    }
}

/// What is wrong among the first `n` fields of the struct, the first of
/// them.
pub open spec fn literal_failure(
    ctx: &DeclarationContext,
    st: StructType,
    given: Seq<(String, ExpressionType)>,
    n: int,
) -> Option<TypecheckError>
    decreases n,
{
    if n <= 0 {
        None
    } else {
        match literal_failure(ctx, st, given, n - 1) {
            Some(e) => Some(e),
            None => field_refused(ctx, st, given, n - 1),
        }
    }
}

/// The type of a struct literal of the declared type `id` that gives
/// the fields `given`, each with the type of its value: a value of the
/// struct, where the literal gives as many fields as the struct has,
/// and for each field of the struct a value that its type accepts.
pub open spec fn struct_literal_type(
    ctx: &DeclarationContext,
    id: TypeID,
    given: Seq<(String, ExpressionType)>,
) -> Result<ExpressionType, TypecheckError> {
    match ctx.spec_decl(id) {
        Some(TypeDeclaration::Struct(st)) => if st.fields@.len() != given.len() {
            Err(TypecheckError::WrongArgsCount)
        } else {
            match literal_failure(ctx, st, given, st.fields@.len() as int) {
                Some(e) => Err(e),
                None => Ok(ExpressionType::InstanceOf(id)),
            }
        },
        _ => Err(TypecheckError::NonStructDeclStructLiteral),
    }
}

/// A failure among the first fields is the failure of them all.
pub proof fn lemma_literal_failure_stays(
    ctx: &DeclarationContext,
    st: StructType,
    given: Seq<(String, ExpressionType)>,
    k: int,
    n: int,
)
    requires
        0 <= k <= n,
    ensures
        literal_failure(ctx, st, given, k) is Some ==> literal_failure(ctx, st, given, n)
            == literal_failure(ctx, st, given, k),
    decreases n - k,
{
    if k < n {
        lemma_literal_failure_stays(ctx, st, given, k, n - 1);
    }
}

/// The type of a struct literal; see `struct_literal_type`.
pub fn typecheck_struct_literal(
    ctx: &DeclarationContext,
    id: TypeID,
    given: &Vec<(String, ExpressionType)>,
) -> (r: Result<ExpressionType, TypecheckError>)
    ensures
        r == struct_literal_type(ctx, id, given@),
{
    let st = match ctx.decl(id) {
        Some(TypeDeclaration::Struct(st)) => st,
        _ => {
            return Err(TypecheckError::NonStructDeclStructLiteral);
        },
    };
    if st.fields.len() != given.len() {
        return Err(TypecheckError::WrongArgsCount);
    }
    let mut i: usize = 0;
    while i < st.fields.len()
        invariant
            0 <= i <= st.fields@.len(),
            ctx.spec_decl(id) == Some(TypeDeclaration::Struct(*st)),
            st.fields@.len() == given@.len(),
            literal_failure(ctx, *st, given@, i as int).is_none(),
        decreases st.fields@.len() - i,
    {
        proof {
            lemma_literal_failure_stays(ctx, *st, given@, i + 1, st.fields@.len() as int);
        }
        match find_name(given, &st.fields[i].0) {
            None => {
                return Err(TypecheckError::MissingField);
            },
            Some(j) => match assert_assignable_to(ctx, &st.fields[i].1, &given[j].1) {
                Ok(()) => {},
                Err(e) => {
                    return Err(e);
                },
            },
        }
        i = i + 1;
    }
    Ok(ExpressionType::InstanceOf(id))
}

/// Whether a body or a branch of type `given` may stand where `wanted`
/// is wanted of it: a statement, which gives nothing, stands where
/// nothing is wanted; anything else must be assignable.
pub open spec fn gives(ctx: &DeclarationContext, wanted: ExpressionType, given: ExpressionType) -> bool {
    (wanted == ExpressionType::Void && given == ExpressionType::Void) || assignable(
        ctx,
        None,
        wanted,
        given,
    )
}

/// Holds what a body or a branch gives against what is wanted of it;
/// see `gives`.
pub fn assert_gives(ctx: &DeclarationContext, wanted: &ExpressionType, given: &ExpressionType) -> (r:
    Result<(), TypecheckError>)
    ensures
        r == if gives(ctx, *wanted, *given) {
            Ok::<(), TypecheckError>(())
        } else {
            Err::<(), TypecheckError>(
                TypecheckError::TypeMismatch { expected: *wanted, received: *given },
            )
        },
{
    let both_void = match (wanted, given) {
        (ExpressionType::Void, ExpressionType::Void) => true,
        _ => false,
    };
    if both_void {
        Ok(())
    } else {
        assert_assignable_to(ctx, wanted, given)
    }
}

/// What a `return` gives back: its value, or nothing.
pub open spec fn returned(value: Option<ExpressionType>) -> ExpressionType {
    match value {
        Some(ty) => ty,
        None => ExpressionType::Void,
    }
}

/// The type of `return value` in a function that is declared to return
/// `declared`: it never returns to where it stands. What is given
/// back must be what the function gives; a `return` without a value
/// gives nothing, and stands where the function returns `Void`.
pub open spec fn return_type(
    ctx: &DeclarationContext,
    declared: ExpressionType,
    value: Option<ExpressionType>,
) -> Result<ExpressionType, TypecheckError> {
    if gives(ctx, declared, returned(value)) {
        Ok(ExpressionType::Unreachable)
    } else {
        Err(TypecheckError::TypeMismatch { expected: declared, received: returned(value) })
    }
}

/// The type of a `return`; see `return_type`.
pub fn typecheck_return(
    ctx: &DeclarationContext,
    declared: &ExpressionType,
    value: Option<&ExpressionType>,
) -> (r: Result<ExpressionType, TypecheckError>)
    ensures
        r == return_type(
            ctx,
            *declared,
            match value {
                Some(ty) => Some(*ty),
                None => None,
            },
        ),
{
    let void = ExpressionType::Void;
    let given: &ExpressionType = match value {
        Some(ty) => ty,
        None => &void,
    };
    match assert_gives(ctx, declared, given) {
        Ok(()) => Ok(ExpressionType::Unreachable),
        Err(e) => Err(e),
    }
}

/// The type of `yield value` in a coroutine that is resumed with values
/// of type `resumed`: that type, for the value with which the coroutine
/// is resumed is what the expression gives. The value yielded must be
/// accepted by it. Outside a coroutine nothing can be yielded.
pub open spec fn yield_type(
    ctx: &DeclarationContext,
    resumed: Option<ExpressionType>,
    value: Option<ExpressionType>,
) -> Result<ExpressionType, TypecheckError> {
    match resumed {
        None => Err(TypecheckError::CannotYield),
        Some(param) => match value {
            None => Ok(param),
            Some(ty) => if assignable(ctx, None, param, ty) {
                Ok(param)
            } else {
                Err(TypecheckError::TypeMismatch { expected: param, received: ty })
            },
        },
    }
}

/// The type of a `yield`; see `yield_type`.
pub fn typecheck_yield(
    ctx: &DeclarationContext,
    resumed: Option<&ExpressionType>,
    value: Option<&ExpressionType>,
) -> (r: Result<ExpressionType, TypecheckError>)
    ensures
        r == yield_type(
            ctx,
            match resumed {
                Some(ty) => Some(*ty),
                None => None,
            },
            match value {
                Some(ty) => Some(*ty),
                None => None,
            },
        ),
{
    match resumed {
        None => Err(TypecheckError::CannotYield),
        Some(param) => match value {
            None => Ok(param.duplicate()),
            Some(ty) => match assert_assignable_to(ctx, param, ty) {
                Ok(()) => Ok(param.duplicate()),
                Err(e) => Err(e),
            },
        },
    }
}

/// Whether the body of a function may have the type `body`. A
/// coroutine must be declared to return a generator, and its body gives
/// no value: what it yields is its result. The body of another function
/// gives what the function is declared to return: a value that the
/// declared type accepts, or nothing where the function returns `Void`.
pub open spec fn body_error(ctx: &DeclarationContext, func: FuncType, body: ExpressionType) -> Option<
    TypecheckError,
> {
    if func.is_coroutine {
        if !(func.returns is Generator) {
            Some(TypecheckError::MustReturnGenerator)
        } else if body == ExpressionType::Void || body == ExpressionType::Unreachable {
            None
        } else {
            Some(TypecheckError::TypeMismatch { expected: ExpressionType::Void, received: body })
        }
    } else if gives(ctx, func.returns, body) {
        None
    } else {
        Some(TypecheckError::TypeMismatch { expected: func.returns, received: body })
    }
}

/// Checks the type of the body of a function; see `body_error`.
pub fn typecheck_function_body(ctx: &DeclarationContext, func: &FuncType, body: &ExpressionType) -> (r:
    Result<(), TypecheckError>)
    ensures
        match body_error(ctx, *func, *body) {
            Some(e) => r == Err::<(), TypecheckError>(e),
            None => r.is_ok(),
        },
{
    if func.is_coroutine {
        let generator = match &func.returns {
            ExpressionType::Generator { .. } => true,
            _ => false,
        };
        let gives_nothing = match body {
            ExpressionType::Void => true,
            ExpressionType::Unreachable => true,
            _ => false,
        };
        if !generator {
            Err(TypecheckError::MustReturnGenerator)
        } else if gives_nothing {
            Ok(())
        } else {
            Err(
                TypecheckError::TypeMismatch {
                    expected: ExpressionType::Void,
                    received: body.duplicate(),
                },
            )
        }
    } else {
        assert_gives(ctx, &func.returns, body)
    }
}

/// What a case of a `match` binds, as far as its first variants say.
pub enum BindingState {
    /// No variant has been looked at.
    Uninit,
    /// The variants bind nothing.
    NoBinding,
    /// The variants bind their payload, of this type, under this name.
    Binding(Seq<char>, ExpressionType),
}

/// One variant as a case names it: the name of the variant, and the name
/// under which its payload is bound, if it is.
pub struct CaseVariant {
    pub name: String,
    pub binding: Option<String>,
}

/// The payload of the variant that a case binds: the variant's own,
/// unless the case binds it as `_`, which discards it.
pub open spec fn bound_payload(un: UnionType, variant: CaseVariant) -> Result<
    Option<ExpressionType>,
    TypecheckError,
> {
    match name_index(un.variants@, variant.name@) {
        None => Err(TypecheckError::FieldNotPresent),
        Some(i) => match variant.binding {
            Some(b) => if b@ == "_"@ {
                Ok(None)
            } else {
                Ok(un.variants@[i].1)
            },
            None => Ok(un.variants@[i].1),
        },
    }
}

/// What a case binds after one more of its variants, or what is wrong
/// with that variant: all the variants of a case must agree on whether
/// they bind their payload, on its type and on the name.
pub open spec fn next_binding(
    ctx: &DeclarationContext,
    un: UnionType,
    state: BindingState,
    variant: CaseVariant,
) -> Result<BindingState, TypecheckError> {
    match bound_payload(un, variant) {
        Err(e) => Err(e),
        Ok(payload) => match state {
            BindingState::Uninit => match payload {
                Some(ty) => match variant.binding {
                    Some(b) => Ok(BindingState::Binding(b@, ty)),
                    None => Err(TypecheckError::BindingCountDoesntMatch),
                },
                None => Ok(BindingState::NoBinding),
            },
            BindingState::NoBinding => match payload {
                Some(_) => Err(TypecheckError::BindingCountDoesntMatch),
                None => Ok(state),
            },
            BindingState::Binding(name, bound) => match payload {
                None => Err(TypecheckError::BindingCountDoesntMatch),
                Some(ty) => if !assignable(ctx, None, bound, ty) {
                    Err(TypecheckError::TypeMismatch { expected: bound, received: ty })
                } else {
                    match variant.binding {
                        Some(b) => if b@ == name {
                            Ok(state)
                        } else {
                            Err(TypecheckError::BindingNameDoesntMatch)
                        },
                        None => Err(TypecheckError::BindingCountDoesntMatch),
                    }
                },
            },
        },
    }
}

/// What a case binds after its first `n` variants, or what is wrong
/// with the first of them that is wrong.
pub open spec fn case_binding(
    ctx: &DeclarationContext,
    un: UnionType,
    variants: Seq<CaseVariant>,
    n: int,
) -> Result<BindingState, TypecheckError>
    decreases n,
{
    if n <= 0 {
        Ok(BindingState::Uninit)
    } else {
        match case_binding(ctx, un, variants, n - 1) {
            Err(e) => Err(e),
            Ok(state) => next_binding(ctx, un, state, variants[n - 1]),
        }
    }
}

/// What is wrong among the first variants of a case is what is wrong
/// with the case.
pub proof fn lemma_case_binding_failure_stays(
    ctx: &DeclarationContext,
    un: UnionType,
    variants: Seq<CaseVariant>,
    k: int,
    n: int,
)
    requires
        0 <= k <= n,
    ensures
        case_binding(ctx, un, variants, k) is Err ==> case_binding(ctx, un, variants, n)
            == case_binding(ctx, un, variants, k),
    decreases n - k,
{
    if k < n {
        lemma_case_binding_failure_stays(ctx, un, variants, k, n - 1);
    }
}

/// What a case of a `match` on the union binds: the name and the type of
/// the payload, if its variants bind one; see `case_binding`.
pub fn typecheck_case_bindings(ctx: &DeclarationContext, un: &UnionType, variants: &Vec<CaseVariant>) -> (r:
    Result<Option<(String, ExpressionType)>, TypecheckError>)
    ensures
        match case_binding(ctx, *un, variants@, variants@.len() as int) {
            Err(e) => r == Err::<Option<(String, ExpressionType)>, TypecheckError>(e),
            Ok(BindingState::Binding(name, ty)) => r matches Ok(Some((found, bound))) && found@
                == name && bound == ty,
            Ok(_) => r matches Ok(None),
        },
{
    let mut bound: Option<(String, ExpressionType)> = None;
    let mut started = false;
    let mut i: usize = 0;
    while i < variants.len()
        invariant
            0 <= i <= variants@.len(),
            match case_binding(ctx, *un, variants@, i as int) {
                Err(_) => false,
                Ok(BindingState::Uninit) => !started && bound.is_none(),
                Ok(BindingState::NoBinding) => started && bound.is_none(),
                Ok(BindingState::Binding(name, ty)) => started && (bound matches Some(
                    (found, held),
                ) && found@ == name && held == ty),
            },
        decreases variants@.len() - i,
    {
        proof {
            lemma_case_binding_failure_stays(ctx, *un, variants@, i + 1, variants@.len() as int);
        }
        let variant = &variants[i];
        let at = match find_name(&un.variants, &variant.name) {
            Some(at) => at,
            None => {
                return Err(TypecheckError::FieldNotPresent);
            },
        };
        let discarded = match &variant.binding {
            Some(b) => crate::declaration_context::is_word(b, "_"),
            None => false,
        };
        let payload: Option<&ExpressionType> = if discarded {
            None
        } else {
            match &un.variants[at].1 {
                Some(ty) => Some(ty),
                None => None,
            }
        };
        if !started {
            match payload {
                Some(ty) => match &variant.binding {
                    Some(b) => {
                        bound = Some((b.clone(), ty.duplicate()));
                    },
                    None => {
                        return Err(TypecheckError::BindingCountDoesntMatch);
                    },
                },
                None => {},
            }
            started = true;
        } else {
            match &bound {
                None => {
                    if payload.is_some() {
                        return Err(TypecheckError::BindingCountDoesntMatch);
                    }
                },
                Some((name, held)) => match payload {
                    None => {
                        return Err(TypecheckError::BindingCountDoesntMatch);
                    },
                    Some(ty) => {
                        match assert_assignable_to(ctx, held, ty) {
                            Ok(()) => {},
                            Err(e) => {
                                return Err(e);
                            },
                        }
                        match &variant.binding {
                            Some(b) => {
                                if !(*b == *name) {
                                    return Err(TypecheckError::BindingNameDoesntMatch);
                                }
                            },
                            None => {
                                return Err(TypecheckError::BindingCountDoesntMatch);
                            },
                        }
                    },
                },
            }
        }
        i = i + 1;
    }
    Ok(bound)
}

/// Whether the body of the case at `i` has a type that does not stand
/// where that of the first body does; see `gives`.
pub open spec fn case_disagrees(ctx: &DeclarationContext, bodies: Seq<ExpressionType>, i: int) -> bool {
    1 <= i < bodies.len() && !gives(ctx, bodies[0], bodies[i])
}

/// The type of a `match` whose case bodies have the given types, in
/// order: that of the first body, which must accept those of the
/// others; `Void` where there is no case. The first body that is not
/// accepted is reported. The value of a `match` is no pointer.
pub open spec fn match_type(ctx: &DeclarationContext, bodies: Seq<ExpressionType>) -> Result<
    ExpressionType,
    TypecheckError,
> {
    if exists|i: int| case_disagrees(ctx, bodies, i) {
        let i = choose|i: int|
            case_disagrees(ctx, bodies, i) && forall|k: int|
                0 <= k < i ==> !case_disagrees(ctx, bodies, k);
        Err(TypecheckError::TypeMismatch { expected: bodies[0], received: bodies[i] })
    } else if bodies.len() == 0 {
        Ok(ExpressionType::Void)
    } else if bodies[0] is Pointer {
        Err(TypecheckError::IllegalFirstClassReference)
    } else {
        Ok(bodies[0])
    }
}

/// The type of a `match`; see `match_type`.
pub fn typecheck_match_result(ctx: &DeclarationContext, bodies: &Vec<ExpressionType>) -> (r: Result<
    ExpressionType,
    TypecheckError,
>)
    ensures
        r == match_type(ctx, bodies@),
{
    if bodies.len() == 0 {
        assert(!(exists|k: int| case_disagrees(ctx, bodies@, k)));
        return Ok(ExpressionType::Void);
    }
    let mut i: usize = 1;
    while i < bodies.len()
        invariant
            1 <= i <= bodies@.len(),
            forall|k: int| 0 <= k < i ==> !case_disagrees(ctx, bodies@, k),
        decreases bodies@.len() - i,
    {
        match assert_gives(ctx, &bodies[0], &bodies[i]) {
            Ok(()) => {},
            Err(e) => {
                proof {
                    assert(case_disagrees(ctx, bodies@, i as int));
                    let w = choose|w: int|
                        case_disagrees(ctx, bodies@, w) && forall|k: int|
                            0 <= k < w ==> !case_disagrees(ctx, bodies@, k);
                    assert(w == i);
                }
                return Err(e);
            },
        }
        i = i + 1;
    }
    assert(!(exists|k: int| case_disagrees(ctx, bodies@, k)));
    if bodies[0].is_pointer() {
        Err(TypecheckError::IllegalFirstClassReference)
    } else {
        Ok(bodies[0].duplicate())
    }
}

/// What a name stands for: what it refers to, and its type.
#[derive(Debug, PartialEq, Eq)]
pub struct Binding {
    pub id: AnyID,
    pub ty: ExpressionType,
}

/// The names that are bound at one level of nesting.
pub type Scope = Vec<(String, Binding)>;

/// Where the name is found among the first `n` of the scopes around an
/// expression, which are given from the nearest outwards: in the first
/// of them that binds it.
pub open spec fn found_in(scopes: Seq<&Vec<(String, Binding)>>, name: Seq<char>, n: int) -> Option<
    Binding,
>
    decreases n,
{
    if n <= 0 {
        None
    } else {
        match found_in(scopes, name, n - 1) {
            Some(b) => Some(b),
            None => match name_index(scopes[n - 1]@, name) {
                Some(i) => Some(scopes[n - 1]@[i].1),
                None => None,
            },
        }
    }
}

/// What the name stands for where it is used: what the current scope
/// binds it to, else what the nearest of the scopes around it does.
pub open spec fn resolved_name(
    current: Seq<(String, Binding)>,
    outer: Seq<&Vec<(String, Binding)>>,
    name: Seq<char>,
) -> Option<Binding> {
    match name_index(current, name) {
        Some(i) => Some(current[i].1),
        None => found_in(outer, name, outer.len() as int),
    }
}

/// What is found among the first scopes is what is found among them
/// all.
pub proof fn lemma_found_stays(scopes: Seq<&Vec<(String, Binding)>>, name: Seq<char>, k: int, n: int)
    requires
        0 <= k <= n,
    ensures
        found_in(scopes, name, k) is Some ==> found_in(scopes, name, n) == found_in(
            scopes,
            name,
            k,
        ),
    decreases n - k,
{
    if k < n {
        lemma_found_stays(scopes, name, k, n - 1);
    }
}

/// What the name stands for where it is used; see `resolved_name`.
pub fn resolve_name<'a>(
    name: &String,
    current_scope: &'a Vec<(String, Binding)>,
    outer_scopes: &Vec<&'a Vec<(String, Binding)>>,
) -> (r: Option<&'a Binding>)
    ensures
        match resolved_name(current_scope@, outer_scopes@, name@) {
            Some(b) => r matches Some(found) && *found == b,
            None => r.is_none(),
        },
{
    match find_name(current_scope, name) {
        Some(i) => {
            return Some(&current_scope[i].1);
        },
        None => {},
    }
    let mut k: usize = 0;
    while k < outer_scopes.len()
        invariant
            0 <= k <= outer_scopes@.len(),
            name_index(current_scope@, name@).is_none(),
            found_in(outer_scopes@, name@, k as int).is_none(),
        decreases outer_scopes@.len() - k,
    {
        proof {
            lemma_found_stays(outer_scopes@, name@, k + 1, outer_scopes@.len() as int);
        }
        let scope: &'a Vec<(String, Binding)> = outer_scopes[k];
        match find_name(scope, name) {
            Some(i) => {
                return Some(&scope[i].1);
            },
            None => {},
        }
        k = k + 1;
    }
    None
}

/// What is known of a file before its functions are typed: the types
/// and the functions that the file knows by name, and what every
/// top-level name stands for.
pub struct TypecheckContext {
    pub top_level_type_names: Vec<(String, TypeID)>,
    pub top_level_function_names: Vec<(String, FunctionID)>,
    pub top_level_name_to_expr_type: Vec<(String, Binding)>,
}

/// What one export or import brings to the top level of a file: a
/// constant stands for itself under its type; a type and a function
/// must be declared, and stand for themselves as values. The module
/// exports nothing else.
pub open spec fn top_level_binding(ctx: &DeclarationContext, export: Export) -> Option<Binding> {
    match export.constant {
        Some(constant) => Some(Binding { id: AnyID::Constant(constant), ty: export.ty }),
        None => match export.ty {
            ExpressionType::ReferenceToType(id) => if ctx.spec_decl(id).is_some() {
                Some(Binding { id: AnyID::Type(id), ty: export.ty })
            } else {
                None
            },
            ExpressionType::ReferenceToFunction(id) => if ctx.spec_func(id).is_some() {
                Some(Binding { id: AnyID::Function(id), ty: export.ty })
            } else {
                None
            },
            _ => None,
        },
    }
}

/// The bindings that the first `n` entries bring; none if one of them
/// brings nothing.
pub open spec fn top_level_bindings(
    ctx: &DeclarationContext,
    entries: Seq<(String, Export)>,
    n: int,
) -> Option<Seq<(Seq<char>, Binding)>>
    decreases n,
{
    if n <= 0 {
        Some(Seq::empty())
    } else {
        match (
            top_level_bindings(ctx, entries, n - 1),
            top_level_binding(ctx, entries[n - 1].1),
        ) {
            (Some(before), Some(b)) => Some(before.push((entries[n - 1].0@, b))),
            _ => None,
        }
    }
}

/// Where the bindings of the first entries fail, those of all do.
pub proof fn lemma_top_level_failure_stays(
    ctx: &DeclarationContext,
    entries: Seq<(String, Export)>,
    k: int,
    n: int,
)
    requires
        0 <= k <= n,
    ensures
        top_level_bindings(ctx, entries, k).is_none() ==> top_level_bindings(
            ctx,
            entries,
            n,
        ).is_none(),
    decreases n - k,
{
    if k < n {
        lemma_top_level_failure_stays(ctx, entries, k, n - 1);
    }
}

/// The bindings as names and what they stand for.
pub open spec fn bindings_of(scope: Seq<(String, Binding)>) -> Seq<(Seq<char>, Binding)> {
    Seq::new(scope.len(), |i: int| (scope[i].0@, scope[i].1))
}

/// The types among the bindings, each under its name.
pub open spec fn type_bindings(bindings: Seq<(Seq<char>, Binding)>, n: int) -> Seq<
    (Seq<char>, TypeID),
>
    decreases n,
{
    if n <= 0 {
        Seq::empty()
    } else {
        let before = type_bindings(bindings, n - 1);
        match bindings[n - 1].1.id {
            AnyID::Type(id) => before.push((bindings[n - 1].0, id)),
            _ => before,
        }
    }
}

/// The functions among the bindings, each under its name.
pub open spec fn function_bindings(bindings: Seq<(Seq<char>, Binding)>, n: int) -> Seq<
    (Seq<char>, FunctionID),
>
    decreases n,
{
    if n <= 0 {
        Seq::empty()
    } else {
        let before = function_bindings(bindings, n - 1);
        match bindings[n - 1].1.id {
            AnyID::Function(id) => before.push((bindings[n - 1].0, id)),
            _ => before,
        }
    }
}

/// Adds what the entries bring to the top level, in order; `false`, and
/// nothing more, at the first that brings nothing.
fn add_top_level(
    ctx: &DeclarationContext,
    entries: &Vec<(String, Export)>,
    scope: &mut Vec<(String, Binding)>,
) -> (ok: bool)
    ensures
        match top_level_bindings(ctx, entries@, entries@.len() as int) {
            Some(brought) => ok && bindings_of(final(scope)@) == bindings_of(old(scope)@)
                + brought,
            None => !ok,
        },
{
    let ghost first = bindings_of(scope@);
    let mut i: usize = 0;
    assert(bindings_of(scope@) =~= first + Seq::<(Seq<char>, Binding)>::empty());
    while i < entries.len()
        invariant
            0 <= i <= entries@.len(),
            first == bindings_of(old(scope)@),
            top_level_bindings(ctx, entries@, i as int) is Some,
            bindings_of(scope@) == first + top_level_bindings(ctx, entries@, i as int).unwrap(),
        decreases entries@.len() - i,
    {
        proof {
            lemma_top_level_failure_stays(ctx, entries@, i + 1, entries@.len() as int);
        }
        let ghost before = scope@;
        let export = &entries[i].1;
        let id: AnyID = match export.constant {
            Some(constant) => AnyID::Constant(constant),
            None => match &export.ty {
                ExpressionType::ReferenceToType(id) => {
                    if ctx.decl(*id).is_none() {
                        return false;
                    }
                    AnyID::Type(*id)
                },
                ExpressionType::ReferenceToFunction(id) => {
                    if ctx.func(*id).is_none() {
                        return false;
                    }
                    AnyID::Function(*id)
                },
                _ => {
                    return false;
                },
            },
        };
        scope.push((entries[i].0.clone(), Binding { id, ty: export.ty.duplicate() }));
        assert(bindings_of(scope@) =~= bindings_of(before).push(
            (entries@[i as int].0@, Binding { id, ty: export.ty }),
        ));
        i = i + 1;
    }
    true
}

impl TypecheckContext {
    /// What the top level of the file called `current_module_name`
    /// binds: what the file imports, then what its module exports, each
    /// under its name, so that an import is found before an export of
    /// the same name. The types and the functions among them are kept
    /// by name as well. Fails where the compilation has no such file,
    /// the module of the file is not declared, or a type or a function
    /// that is imported or exported is not declared.
    pub fn new(current_module_name: &String, declarations: &DeclarationContext) -> (r: Result<
        TypecheckContext,
        TypecheckError,
    >)
        ensures
            match name_index(declarations.files@, current_module_name@) {
                None => r matches Err(e) && e == TypecheckError::FileNotFound,
                Some(f) => match declarations.spec_decl(declarations.files@[f].1.module_id) {
                    Some(TypeDeclaration::Module(module)) => match (
                        top_level_bindings(
                            declarations,
                            declarations.files@[f].1.imports@,
                            declarations.files@[f].1.imports@.len() as int,
                        ),
                        top_level_bindings(
                            declarations,
                            module.exports@,
                            module.exports@.len() as int,
                        ),
                    ) {
                        (Some(imported), Some(exported)) => r matches Ok(context) && {
                            let bound = bindings_of(context.top_level_name_to_expr_type@);
                            &&& bound == imported + exported
                            &&& crate::declaration_context::named(context.top_level_type_names@)
                                == type_bindings(bound, bound.len() as int)
                            &&& crate::declaration_context::named(
                                context.top_level_function_names@,
                            ) == function_bindings(bound, bound.len() as int)
                        },
                        _ => r matches Err(e) && e == TypecheckError::NameNotFound,
                    },
                    _ => r matches Err(e) && e == TypecheckError::FileNotFound,
                },
            },
    {
        let f = match find_name(&declarations.files, current_module_name) {
            Some(f) => f,
            None => {
                return Err(TypecheckError::FileNotFound);
            },
        };
        let file = &declarations.files[f].1;
        let module = match declarations.decl(file.module_id) {
            Some(TypeDeclaration::Module(module)) => module,
            _ => {
                return Err(TypecheckError::FileNotFound);
            },
        };
        let mut scope: Vec<(String, Binding)> = Vec::new();
        assert(bindings_of(scope@) =~= Seq::<(Seq<char>, Binding)>::empty());
        if !add_top_level(declarations, &file.imports, &mut scope) {
            return Err(TypecheckError::NameNotFound);
        }
        if !add_top_level(declarations, &module.exports, &mut scope) {
            return Err(TypecheckError::NameNotFound);
        }
        let ghost bound = bindings_of(scope@);
        let mut types: Vec<(String, TypeID)> = Vec::new();
        let mut functions: Vec<(String, FunctionID)> = Vec::new();
        let mut i: usize = 0;
        assert(crate::declaration_context::named(types@) =~= type_bindings(bound, 0));
        assert(crate::declaration_context::named(functions@) =~= function_bindings(bound, 0));
        while i < scope.len()
            invariant
                0 <= i <= scope@.len(),
                bound == bindings_of(scope@),
                crate::declaration_context::named(types@) == type_bindings(bound, i as int),
                crate::declaration_context::named(functions@) == function_bindings(
                    bound,
                    i as int,
                ),
            decreases scope@.len() - i,
        {
            let ghost types_before = types@;
            let ghost functions_before = functions@;
            match scope[i].1.id {
                AnyID::Type(id) => {
                    types.push((scope[i].0.clone(), id));
                    assert(crate::declaration_context::named(types@)
                        =~= crate::declaration_context::named(types_before).push(
                        (scope@[i as int].0@, id),
                    ));
                },
                AnyID::Function(id) => {
                    functions.push((scope[i].0.clone(), id));
                    assert(crate::declaration_context::named(functions@)
                        =~= crate::declaration_context::named(functions_before).push(
                        (scope@[i as int].0@, id),
                    ));
                },
                _ => {},
            }
            i = i + 1;
        }
        Ok(
            TypecheckContext {
                top_level_type_names: types,
                top_level_function_names: functions,
                top_level_name_to_expr_type: scope,
            },
        )
    }
}

/// Types the name at the node `node`: its type is that of what it
/// stands for, see `resolved_name`, and is put into the type cell of
/// the node; what it refers to is put into the cell for that. A name
/// that stands for nothing is not found, and fills no cell. So the
/// cells of a name that were empty are filled if and only if the name
/// is resolved.
pub fn typecheck_name(
    cells: &mut crate::parser::AstCells,
    node: usize,
    name: &String,
    current_scope: &Vec<(String, Binding)>,
    outer_scopes: &Vec<&Vec<(String, Binding)>>,
) -> (r: Result<ExpressionType, TypecheckError>)
    ensures
        match resolved_name(current_scope@, outer_scopes@, name@) {
            Some(b) => {
                &&& r == Ok::<ExpressionType, TypecheckError>(b.ty)
                &&& final(cells).referenced_ids@ == if node < old(cells).referenced_ids@.len()
                    && old(cells).referenced_ids@[node as int].is_none() {
                    old(cells).referenced_ids@.update(node as int, Some(b.id))
                } else {
                    old(cells).referenced_ids@
                }
                &&& final(cells).types@ == if node < old(cells).types@.len() && old(cells).types@[node as int].is_none() {
                    old(cells).types@.update(node as int, Some(b.ty))
                } else {
                    old(cells).types@
                }
            },
            None => {
                &&& r == Err::<ExpressionType, TypecheckError>(TypecheckError::NameNotFound)
                &&& final(cells).referenced_ids@ == old(cells).referenced_ids@
                &&& final(cells).types@ == old(cells).types@
            },
        },
{
    match resolve_name(name, current_scope, outer_scopes) {
        Some(binding) => {
            cells.set_referenced_id(node, binding.id);
            cells.set_type(node, binding.ty.duplicate());
            Ok(binding.ty.duplicate())
        },
        None => Err(TypecheckError::NameNotFound),
    }
}

/// Wherever the cells of a name were empty before it was typed, what
/// the name refers to is known afterwards if and only if the name was
/// resolved.
pub proof fn lemma_referenced_id_is_set_iff_the_name_resolves(
    before: Seq<Option<AnyID>>,
    after: Seq<Option<AnyID>>,
    node: int,
    resolved: Option<Binding>,
)
    requires
        0 <= node < before.len(),
        before[node].is_none(),
        after == match resolved {
            Some(b) => before.update(node, Some(b.id)),
            None => before,
        },
    ensures
        after[node].is_some() == resolved.is_some(),
        resolved matches Some(b) ==> after[node] == Some(b.id),
        forall|other: int| 0 <= other < before.len() && other != node ==> after[other] == before[other],
{
}

/// The type of `left and right` and of `left or right`: a boolean,
/// where both sides are accepted as booleans; the left side is looked
/// at first.
pub open spec fn logical_type(ctx: &DeclarationContext, left: ExpressionType, right: ExpressionType) -> Result<
    ExpressionType,
    TypecheckError,
> {
    let boolean = ExpressionType::Primitive(PrimitiveType::Bool);
    if !assignable(ctx, None, boolean, left) {
        Err(TypecheckError::TypeMismatch { expected: boolean, received: left })
    } else if !assignable(ctx, None, boolean, right) {
        Err(TypecheckError::TypeMismatch { expected: boolean, received: right })
    } else {
        Ok(boolean)
    }
}

/// The type of a logical operation; see `logical_type`.
pub fn typecheck_logical(ctx: &DeclarationContext, left: &ExpressionType, right: &ExpressionType) -> (r:
    Result<ExpressionType, TypecheckError>)
    ensures
        r == logical_type(ctx, *left, *right),
{
    let boolean = ExpressionType::Primitive(PrimitiveType::Bool);
    match assert_assignable_to(ctx, &boolean, left) {
        Err(e) => Err(e),
        Ok(()) => match assert_assignable_to(ctx, &boolean, right) {
            Err(e) => Err(e),
            Ok(()) => Ok(boolean),
        },
    }
}

/// The type of `left ++ right`: a string, where both sides are accepted
/// as strings; the left side is looked at first.
pub open spec fn concat_type(ctx: &DeclarationContext, left: ExpressionType, right: ExpressionType) -> Result<
    ExpressionType,
    TypecheckError,
> {
    let string = ExpressionType::Collection(CollectionType::String);
    if !assignable(ctx, None, string, left) {
        Err(TypecheckError::TypeMismatch { expected: string, received: left })
    } else if !assignable(ctx, None, string, right) {
        Err(TypecheckError::TypeMismatch { expected: string, received: right })
    } else {
        Ok(string)
    }
}

/// The type of a concatenation; see `concat_type`.
pub fn typecheck_concat(ctx: &DeclarationContext, left: &ExpressionType, right: &ExpressionType) -> (r:
    Result<ExpressionType, TypecheckError>)
    ensures
        r == concat_type(ctx, *left, *right),
{
    let string = ExpressionType::Collection(CollectionType::String);
    match assert_assignable_to(ctx, &string, left) {
        Err(e) => Err(e),
        Ok(()) => match assert_assignable_to(ctx, &string, right) {
            Err(e) => Err(e),
            Ok(()) => Ok(string),
        },
    }
}

/// What is wrong with the condition of an `if` or a `while`, if
/// anything: read through its pointers, it must be a boolean.
pub open spec fn condition_error(condition: ExpressionType) -> Option<TypecheckError> {
    if deref_fully(condition) == ExpressionType::Primitive(PrimitiveType::Bool) {
        None
    } else {
        Some(
            TypecheckError::TypeMismatch {
                expected: ExpressionType::Primitive(PrimitiveType::Bool),
                received: condition,
            },
        )
    }
}

/// Checks the condition of an `if` or a `while`; see `condition_error`.
pub fn typecheck_condition(condition: &ExpressionType) -> (r: Result<(), TypecheckError>)
    ensures
        match condition_error(*condition) {
            Some(e) => r == Err::<(), TypecheckError>(e),
            None => r.is_ok(),
        },
{
    match fully_dereference(condition) {
        ExpressionType::Primitive(PrimitiveType::Bool) => Ok(()),
        _ => Err(
            TypecheckError::TypeMismatch {
                expected: ExpressionType::Primitive(PrimitiveType::Bool),
                received: condition.duplicate(),
            },
        ),
    }
}

/// The type of an `if`: `Void` without an `else`; with one, the type of
/// the branch where the other may stand, the first if both do; see
/// `gives`.
pub open spec fn if_type(
    ctx: &DeclarationContext,
    condition: ExpressionType,
    then: ExpressionType,
    otherwise: Option<ExpressionType>,
) -> Result<ExpressionType, TypecheckError> {
    match condition_error(condition) {
        Some(e) => Err(e),
        None => match otherwise {
            None => Ok(ExpressionType::Void),
            Some(other) => if gives(ctx, then, other) {
                Ok(then)
            } else if gives(ctx, other, then) {
                Ok(other)
            } else {
                Err(TypecheckError::TypeMismatch { expected: other, received: then })
            },
        },
    }
}

/// The type of an `if`; see `if_type`.
pub fn typecheck_if(
    ctx: &DeclarationContext,
    condition: &ExpressionType,
    then: &ExpressionType,
    otherwise: Option<&ExpressionType>,
) -> (r: Result<ExpressionType, TypecheckError>)
    ensures
        r == if_type(
            ctx,
            *condition,
            *then,
            match otherwise {
                Some(ty) => Some(*ty),
                None => None,
            },
        ),
{
    match typecheck_condition(condition) {
        Err(e) => Err(e),
        Ok(()) => match otherwise {
            None => Ok(ExpressionType::Void),
            Some(other) => {
                match assert_gives(ctx, then, other) {
                    Ok(()) => Ok(then.duplicate()),
                    Err(_) => match assert_gives(ctx, other, then) {
                        Ok(()) => Ok(other.duplicate()),
                        Err(e) => Err(e),
                    },
                }
            },
        },
    }
}

/// The type of a `while`: `Void`, where the condition is a boolean.
pub fn typecheck_while(condition: &ExpressionType) -> (r: Result<ExpressionType, TypecheckError>)
    ensures
        r == match condition_error(*condition) {
            Some(e) => Err::<ExpressionType, TypecheckError>(e),
            None => Ok::<ExpressionType, TypecheckError>(ExpressionType::Void),
        },
{
    match typecheck_condition(condition) {
        Err(e) => Err(e),
        Ok(()) => Ok(ExpressionType::Void),
    }
}

/// What is wrong where an arithmetic operation is made of values of the
/// types `left` and `right`, as a list of no error or one: both must
/// read through to primitives.
pub open spec fn arithmetic_errors(left: ExpressionType, right: ExpressionType) -> Seq<
    TypecheckError,
> {
    if deref_fully(left) is Primitive && deref_fully(right) is Primitive {
        Seq::empty()
    } else {
        seq![TypecheckError::ArithmeticMismatch]
    }
}

/// All that is wrong with `left += right` and its like: what is wrong
/// with the left side as a target, then with its type where it is a
/// reference, then with the two sides where they are no numbers, then
/// with the right side where the left side does not accept it.
pub open spec fn compound_assignment_errors(
    ctx: &DeclarationContext,
    shape: LvalueShape,
    left: ExpressionType,
    right: ExpressionType,
) -> Seq<TypecheckError> {
    assignment_lhs_errors(shape) + reference_errors(left) + arithmetic_errors(left, right)
        + mismatch_errors(ctx, left, right)
}

/// The type of `left += right` and its like: `Void`, where nothing is
/// wrong with it; else all that is wrong, see
/// `compound_assignment_errors`.
pub fn typecheck_compound_assignment(
    ctx: &DeclarationContext,
    shape: &LvalueShape,
    left: &ExpressionType,
    right: &ExpressionType,
) -> (r: Result<ExpressionType, Vec<TypecheckError>>)
    ensures
        match r {
            Ok(ty) => ty == ExpressionType::Void && compound_assignment_errors(
                ctx,
                *shape,
                *left,
                *right,
            ).len() == 0,
            Err(errors) => errors@.len() > 0 && errors@ == compound_assignment_errors(
                ctx,
                *shape,
                *left,
                *right,
            ),
        },
{
    let mut errors: Vec<TypecheckError> = Vec::new();
    validate_assignment_lhs(shape, &mut errors);
    match ensure_no_assignment_to_reference(left) {
        Ok(()) => {},
        Err(e) => {
            errors.push(e);
        },
    }
    let left_primitive = match fully_dereference(left) {
        ExpressionType::Primitive(_) => true,
        _ => false,
    };
    let right_primitive = match fully_dereference(right) {
        ExpressionType::Primitive(_) => true,
        _ => false,
    };
    if !left_primitive || !right_primitive {
        errors.push(TypecheckError::ArithmeticMismatch);
    }
    match assert_assignable_to(ctx, left, right) {
        Ok(()) => {},
        Err(e) => {
            errors.push(e);
        },
    }
    assert(errors@ =~= compound_assignment_errors(ctx, *shape, *left, *right));
    if errors.len() == 0 {
        Ok(ExpressionType::Void)
    } else {
        Err(errors)
    }
}

/// The type of `not value`: a boolean, where the value is accepted as
/// one.
pub fn typecheck_not(ctx: &DeclarationContext, value: &ExpressionType) -> (r: Result<
    ExpressionType,
    TypecheckError,
>)
    ensures
        r == if assignable(ctx, None, ExpressionType::Primitive(PrimitiveType::Bool), *value) {
            Ok::<ExpressionType, TypecheckError>(ExpressionType::Primitive(PrimitiveType::Bool))
        } else {
            Err::<ExpressionType, TypecheckError>(
                TypecheckError::TypeMismatch {
                    expected: ExpressionType::Primitive(PrimitiveType::Bool),
                    received: *value,
                },
            )
        },
{
    let boolean = ExpressionType::Primitive(PrimitiveType::Bool);
    match assert_assignable_to(ctx, &boolean, value) {
        Ok(()) => Ok(boolean),
        Err(e) => Err(e),
    }
}

/// The type of a reference counter made of a value of type `inner`.
pub fn typecheck_rc_literal(inner: &ExpressionType) -> (r: ExpressionType)
    ensures
        r == ExpressionType::Collection(CollectionType::ReferenceCounter(Box::new(*inner))),
{
    ExpressionType::Collection(CollectionType::ReferenceCounter(Box::new(inner.duplicate())))
}

/// The type of a cell made of a value of type `inner`.
pub fn typecheck_cell_literal(inner: &ExpressionType) -> (r: ExpressionType)
    ensures
        r == ExpressionType::Collection(CollectionType::Cell(Box::new(*inner))),
{
    ExpressionType::Collection(CollectionType::Cell(Box::new(inner.duplicate())))
}

/// The type of an array that holds `length` times a value of type
/// `value`: an array of such values, where the length is accepted as a
/// size.
pub fn typecheck_array_of_length(
    ctx: &DeclarationContext,
    value: &ExpressionType,
    length: &ExpressionType,
) -> (r: Result<ExpressionType, TypecheckError>)
    ensures
        r == if assignable(
            ctx,
            None,
            ExpressionType::Primitive(PrimitiveType::PointerSize),
            *length,
        ) {
            Ok::<ExpressionType, TypecheckError>(
                ExpressionType::Collection(CollectionType::Array(Box::new(*value))),
            )
        } else {
            Err::<ExpressionType, TypecheckError>(
                TypecheckError::TypeMismatch {
                    expected: ExpressionType::Primitive(PrimitiveType::PointerSize),
                    received: *length,
                },
            )
        },
{
    let size = ExpressionType::Primitive(PrimitiveType::PointerSize);
    match assert_assignable_to(ctx, &size, length) {
        Ok(()) => Ok(ExpressionType::Collection(CollectionType::Array(Box::new(value.duplicate())))),
        Err(e) => Err(e),
    }
}

/// Whether the item at `i` has another type than the first item.
pub open spec fn item_differs(items: Seq<ExpressionType>, i: int) -> bool {
    1 <= i < items.len() && items[i] != items[0]
}

/// The type of an array literal whose items have the given types: an
/// array of the type of the first, which all the others must have; the
/// first that has another is reported.
pub open spec fn array_literal_type(items: Seq<ExpressionType>) -> Result<
    ExpressionType,
    TypecheckError,
> {
    if exists|i: int| item_differs(items, i) {
        let i = choose|i: int|
            item_differs(items, i) && forall|k: int| 0 <= k < i ==> !item_differs(items, k);
        Err(TypecheckError::TypeMismatch { expected: items[0], received: items[i] })
    } else {
        Ok(ExpressionType::Collection(CollectionType::Array(Box::new(items[0]))))
    }
}

/// The type of an array literal; see `array_literal_type`. A literal
/// without items has no type and is left out.
pub fn typecheck_array_literal(items: &Vec<ExpressionType>) -> (r: Result<
    ExpressionType,
    TypecheckError,
>)
    requires
        items@.len() > 0,
    ensures
        r == array_literal_type(items@),
{
    let mut i: usize = 1;
    while i < items.len()
        invariant
            1 <= i <= items@.len(),
            forall|k: int| 0 <= k < i ==> !item_differs(items@, k),
        decreases items@.len() - i,
    {
        if !items[0].same(&items[i]) {
            proof {
                assert(item_differs(items@, i as int));
                let w = choose|w: int|
                    item_differs(items@, w) && forall|k: int|
                        0 <= k < w ==> !item_differs(items@, k);
                assert(w == i);
            }
            return Err(
                TypecheckError::TypeMismatch {
                    expected: items[0].duplicate(),
                    received: items[i].duplicate(),
                },
            );
        }
        i = i + 1;
    }
    assert(!(exists|k: int| item_differs(items@, k)));
    Ok(ExpressionType::Collection(CollectionType::Array(Box::new(items[0].duplicate()))))
}

/// What is wrong with the entry at `i` of a dictionary literal, if
/// anything: the type of its key must accept that of the first key,
/// and the type of its value that of the first value.
pub open spec fn entry_error(
    ctx: &DeclarationContext,
    entries: Seq<(ExpressionType, ExpressionType)>,
    i: int,
) -> Option<TypecheckError> {
    if i < 1 || i >= entries.len() {
        None
    } else if !assignable(ctx, None, entries[i].0, entries[0].0) {
        Some(TypecheckError::TypeMismatch { expected: entries[i].0, received: entries[0].0 })
    } else if !assignable(ctx, None, entries[i].1, entries[0].1) {
        Some(TypecheckError::TypeMismatch { expected: entries[i].1, received: entries[0].1 })
    } else {
        None
    }
}

/// What is wrong among the first `n` entries, the first of them.
pub open spec fn entries_error(
    ctx: &DeclarationContext,
    entries: Seq<(ExpressionType, ExpressionType)>,
    n: int,
) -> Option<TypecheckError>
    decreases n,
{
    if n <= 0 {
        None
    } else {
        match entries_error(ctx, entries, n - 1) {
            Some(e) => Some(e),
            None => entry_error(ctx, entries, n - 1),
        }
    }
}

/// What is wrong among the first entries is what is wrong with the
/// literal.
pub proof fn lemma_entries_error_stays(
    ctx: &DeclarationContext,
    entries: Seq<(ExpressionType, ExpressionType)>,
    k: int,
    n: int,
)
    requires
        0 <= k <= n,
    ensures
        entries_error(ctx, entries, k) is Some ==> entries_error(ctx, entries, n)
            == entries_error(ctx, entries, k),
    decreases n - k,
{
    if k < n {
        lemma_entries_error_stays(ctx, entries, k, n - 1);
    }
}

/// The type of a dictionary literal whose entries have the given types
/// of key and value: a dictionary from the type of the first key to the
/// type of the first value, with which the others must agree; see
/// `entry_error`. A literal without entries has no type and is left
/// out.
pub fn typecheck_dict_literal(
    ctx: &DeclarationContext,
    entries: &Vec<(ExpressionType, ExpressionType)>,
) -> (r: Result<ExpressionType, TypecheckError>)
    requires
        entries@.len() > 0,
    ensures
        r == match entries_error(ctx, entries@, entries@.len() as int) {
            Some(e) => Err::<ExpressionType, TypecheckError>(e),
            None => Ok::<ExpressionType, TypecheckError>(
                ExpressionType::Collection(
                    CollectionType::Dict(Box::new(entries@[0].0), Box::new(entries@[0].1)),
                ),
            ),
        },
{
    let mut i: usize = 1;
    assert(entries_error(ctx, entries@, 1).is_none()) by {
        assert(entries_error(ctx, entries@, 0).is_none());
    }
    while i < entries.len()
        invariant
            1 <= i <= entries@.len(),
            entries_error(ctx, entries@, i as int).is_none(),
        decreases entries@.len() - i,
    {
        proof {
            lemma_entries_error_stays(ctx, entries@, i + 1, entries@.len() as int);
        }
        match assert_assignable_to(ctx, &entries[i].0, &entries[0].0) {
            Ok(()) => {},
            Err(e) => {
                return Err(e);
            },
        }
        match assert_assignable_to(ctx, &entries[i].1, &entries[0].1) {
            Ok(()) => {},
            Err(e) => {
                return Err(e);
            },
        }
        i = i + 1;
    }
    Ok(
        ExpressionType::Collection(
            CollectionType::Dict(
                Box::new(entries[0].0.duplicate()),
                Box::new(entries[0].1.duplicate()),
            ),
        ),
    )
}

/// What is wrong with the arguments from position `i` on, held against
/// the parameters of an anonymous signature, one by one, as far as both
/// go: the first argument that its parameter does not accept.
pub open spec fn arguments_error(
    ctx: &DeclarationContext,
    parameters: ParameterList,
    args: Seq<ExpressionType>,
    i: int,
) -> Option<TypecheckError>
    decreases parameters,
{
    match parameters {
        ParameterList::Nil => None,
        ParameterList::Cons(head, tail) => if i < 0 || i >= args.len() {
            None
        } else if !assignable(ctx, None, *head, args[i]) {
            Some(TypecheckError::TypeMismatch { expected: *head, received: args[i] })
        } else {
            arguments_error(ctx, *tail, args, i + 1)
        },
    }
}

/// Holds the arguments from position `i` on against the parameters of
/// an anonymous signature; see `arguments_error`.
pub fn check_arguments(
    ctx: &DeclarationContext,
    parameters: &ParameterList,
    args: &Vec<ExpressionType>,
    i: usize,
) -> (r: Result<(), TypecheckError>)
    ensures
        match arguments_error(ctx, *parameters, args@, i as int) {
            Some(e) => r == Err::<(), TypecheckError>(e),
            None => r.is_ok(),
        },
    decreases *parameters,
{
    match parameters {
        ParameterList::Nil => Ok(()),
        ParameterList::Cons(head, tail) => {
            if i >= args.len() {
                Ok(())
            } else {
                match assert_assignable_to(ctx, head, &args[i]) {
                    Err(e) => Err(e),
                    Ok(()) => check_arguments(ctx, tail, args, i + 1),
                }
            }
        },
    }
}

/// The type of a call of a value of type `callee`, read through its
/// pointers, with arguments of the given types. A named function goes
/// by `call_type`. A generator is resumed: with no argument where it
/// takes `Void`, else with one that its parameter accepts; and gives
/// what it yields. An anonymous signature, such as the constructor of a
/// variant, gives what it returns, where its parameters accept the
/// arguments. Nothing else can be called.
pub open spec fn callee_type(
    ctx: &DeclarationContext,
    callee: ExpressionType,
    receiver: Option<ExpressionType>,
    args: Seq<ExpressionType>,
) -> Result<ExpressionType, TypecheckError> {
    match deref_fully(callee) {
        ExpressionType::ReferenceToFunction(id) => match ctx.spec_func(id) {
            Some(func) => call_type(ctx, func, receiver, args),
            None => Err(TypecheckError::CantCall),
        },
        ExpressionType::Generator { yield_ty, param_ty } => if *param_ty == ExpressionType::Void {
            if args.len() != 0 {
                Err(TypecheckError::WrongArgsCount)
            } else {
                Ok(*yield_ty)
            }
        } else if args.len() != 1 {
            Err(TypecheckError::WrongArgsCount)
        } else if assignable(ctx, None, *param_ty, args[0]) {
            Ok(*yield_ty)
        } else {
            Err(TypecheckError::TypeMismatch { expected: *param_ty, received: args[0] })
        },
        ExpressionType::FunctionReference { parameters, returns: result } => match arguments_error(
            ctx,
            parameters,
            args,
            0,
        ) {
            Some(e) => Err(e),
            None => Ok(*result),
        },
        _ => Err(TypecheckError::CantCall),
    }
}

/// The type of a call of a value; see `callee_type`.
pub fn typecheck_callee(
    ctx: &DeclarationContext,
    callee: &ExpressionType,
    receiver: Option<&ExpressionType>,
    args: &Vec<ExpressionType>,
) -> (r: Result<ExpressionType, TypecheckError>)
    ensures
        r == callee_type(
            ctx,
            *callee,
            match receiver {
                Some(ty) => Some(*ty),
                None => None,
            },
            args@,
        ),
{
    match fully_dereference(callee) {
        ExpressionType::ReferenceToFunction(id) => match ctx.func(*id) {
            Some(func) => typecheck_call(ctx, func, receiver, args),
            None => Err(TypecheckError::CantCall),
        },
        ExpressionType::Generator { yield_ty, param_ty } => {
            let takes_nothing = match **param_ty {
                ExpressionType::Void => true,
                _ => false,
            };
            if takes_nothing {
                if args.len() != 0 {
                    Err(TypecheckError::WrongArgsCount)
                } else {
                    Ok(yield_ty.duplicate())
                }
            } else if args.len() != 1 {
                Err(TypecheckError::WrongArgsCount)
            } else {
                match assert_assignable_to(ctx, param_ty, &args[0]) {
                    Ok(()) => Ok(yield_ty.duplicate()),
                    Err(e) => Err(e),
                }
            }
        },
        ExpressionType::FunctionReference { parameters, returns: result } => match check_arguments(
            ctx,
            parameters,
            args,
            0,
        ) {
            Ok(()) => Ok(result.duplicate()),
            Err(e) => Err(e),
        },
        _ => Err(TypecheckError::CantCall),
    }
}

} // verus!
