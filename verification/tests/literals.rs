use brick::declaration_context::DeclarationContext;
use brick::id::FileID;
use brick::typecheck::{
    typecheck_array_literal, typecheck_array_of_length, typecheck_cell_literal,
    typecheck_dict_literal, typecheck_not, typecheck_rc_literal, TypecheckError,
};
use brick::types::{CollectionType, ExpressionType, PointerKind, PrimitiveType};

fn prim(p: PrimitiveType) -> ExpressionType {
    ExpressionType::Primitive(p)
}

fn i32_ty() -> ExpressionType {
    prim(PrimitiveType::Int32)
}

fn i64_ty() -> ExpressionType {
    prim(PrimitiveType::Int64)
}

fn bool_ty() -> ExpressionType {
    prim(PrimitiveType::Bool)
}

fn string_ty() -> ExpressionType {
    ExpressionType::Collection(CollectionType::String)
}

fn array(ty: ExpressionType) -> ExpressionType {
    ExpressionType::Collection(CollectionType::Array(Box::new(ty)))
}

fn dict(k: ExpressionType, v: ExpressionType) -> ExpressionType {
    ExpressionType::Collection(CollectionType::Dict(Box::new(k), Box::new(v)))
}

fn mismatch(expected: ExpressionType, received: ExpressionType) -> TypecheckError {
    TypecheckError::TypeMismatch { expected, received }
}

fn context() -> DeclarationContext {
    DeclarationContext::empty(FileID(1))
}

#[test]
fn array_literal_has_items_of_one_type() {
    // list[i32][1,2,3]
    assert_eq!(
        typecheck_array_literal(&vec![i32_ty(), i32_ty(), i32_ty()]),
        Ok(array(i32_ty()))
    );
    assert_eq!(typecheck_array_literal(&vec![string_ty()]), Ok(array(string_ty())));
    // no widening among the items
    assert_eq!(
        typecheck_array_literal(&vec![i64_ty(), i64_ty(), i32_ty(), bool_ty()]),
        Err(mismatch(i64_ty(), i32_ty()))
    );
}

#[test]
fn array_of_a_length() {
    let ctx = context();
    assert_eq!(
        typecheck_array_of_length(&ctx, &string_ty(), &prim(PrimitiveType::PointerSize)),
        Ok(array(string_ty()))
    );
    assert_eq!(
        typecheck_array_of_length(&ctx, &string_ty(), &i32_ty()),
        Ok(array(string_ty()))
    );
    assert_eq!(
        typecheck_array_of_length(&ctx, &string_ty(), &i64_ty()),
        Err(mismatch(prim(PrimitiveType::PointerSize), i64_ty()))
    );
}

#[test]
fn dict_literal_goes_by_its_first_entry() {
    let ctx = context();
    assert_eq!(
        typecheck_dict_literal(&ctx, &vec![(string_ty(), i32_ty())]),
        Ok(dict(string_ty(), i32_ty()))
    );
    assert_eq!(
        typecheck_dict_literal(
            &ctx,
            &vec![(i32_ty(), i32_ty()), (i64_ty(), i64_ty()), (i32_ty(), i32_ty())]
        ),
        Ok(dict(i32_ty(), i32_ty()))
    );
    assert_eq!(
        typecheck_dict_literal(&ctx, &vec![(i64_ty(), i32_ty()), (i32_ty(), i32_ty())]),
        Err(mismatch(i32_ty(), i64_ty()))
    );
    assert_eq!(
        typecheck_dict_literal(
            &ctx,
            &vec![(i32_ty(), string_ty()), (i32_ty(), bool_ty())]
        ),
        Err(mismatch(bool_ty(), string_ty()))
    );
}

#[test]
fn reference_counters_and_cells() {
    assert_eq!(
        typecheck_rc_literal(&i32_ty()),
        ExpressionType::Collection(CollectionType::ReferenceCounter(Box::new(i32_ty())))
    );
    assert_eq!(
        typecheck_cell_literal(&string_ty()),
        ExpressionType::Collection(CollectionType::Cell(Box::new(string_ty())))
    );
}

#[test]
fn not_takes_a_boolean() {
    let ctx = context();
    assert_eq!(typecheck_not(&ctx, &bool_ty()), Ok(bool_ty()));
    assert_eq!(
        typecheck_not(
            &ctx,
            &ExpressionType::Pointer(PointerKind::Shared, Box::new(bool_ty()))
        ),
        Ok(bool_ty())
    );
    assert_eq!(
        typecheck_not(&ctx, &i32_ty()),
        Err(mismatch(bool_ty(), i32_ty()))
    );
}
