use brick::declaration_context::DeclarationContext;
use brick::id::{FileID, FunctionID, TypeID};
use brick::typecheck::{
    ensure_no_assignment_to_reference, typecheck_assignment, typecheck_borrow,
    typecheck_declaration, typecheck_dereference, typecheck_struct_literal,
    validate_assignment_lhs, validate_assignment_lhs_ty, validate_lvalue, LvalueShape,
    TypecheckError,
};
use brick::types::{
    CollectionType, ExpressionType, PointerKind, PrimitiveType, StructType, TypeDeclaration,
    UnionType,
};

fn i32_ty() -> ExpressionType {
    ExpressionType::Primitive(PrimitiveType::Int32)
}

fn i64_ty() -> ExpressionType {
    ExpressionType::Primitive(PrimitiveType::Int64)
}

fn shared(ty: ExpressionType) -> ExpressionType {
    ExpressionType::Pointer(PointerKind::Shared, Box::new(ty))
}

fn unique(ty: ExpressionType) -> ExpressionType {
    ExpressionType::Pointer(PointerKind::Unique, Box::new(ty))
}

fn nullable(ty: ExpressionType) -> ExpressionType {
    ExpressionType::Nullable(Box::new(ty))
}

fn deref(kind: PointerKind, inner: LvalueShape) -> LvalueShape {
    LvalueShape::Dereference {
        kind,
        inner: Box::new(inner),
    }
}

fn access(inner: LvalueShape) -> LvalueShape {
    LvalueShape::Access(Box::new(inner))
}

fn lhs_errors(shape: &LvalueShape) -> Vec<TypecheckError> {
    let mut errors = vec![];
    validate_assignment_lhs(shape, &mut errors);
    errors
}

fn context() -> DeclarationContext {
    let mut ctx = DeclarationContext::empty(FileID(1));
    ctx.id_to_decl.push(TypeDeclaration::Struct(StructType {
        id: TypeID(FileID(2), 2),
        fields: vec![
            ("f".to_string(), i32_ty()),
            ("g".to_string(), nullable(i64_ty())),
        ],
        associated_functions: vec![],
        is_affine: false,
    }));
    ctx.id_to_decl.push(TypeDeclaration::Union(UnionType {
        id: TypeID(FileID(2), 3),
        variants: vec![],
        is_affine: false,
    }));
    ctx
}

#[test]
fn assignment_through_a_shared_pointer_is_rejected() {
    // let p = shared x; *p = 5
    let ctx = context();
    let target = deref(PointerKind::Shared, LvalueShape::Name(shared(i32_ty())));
    // the pointer that is written through, and the name that holds it
    assert_eq!(
        typecheck_assignment(&ctx, &target, &i32_ty(), &i32_ty()),
        Err(vec![
            TypecheckError::IllegalSharedRefMutation,
            TypecheckError::IllegalSharedRefMutation
        ])
    );
    assert_eq!(
        lhs_errors(&deref(
            PointerKind::Shared,
            LvalueShape::Name(unique(i32_ty()))
        )),
        vec![TypecheckError::IllegalSharedRefMutation]
    );
    // a shared pointer deeper down is found too
    let deep = access(deref(
        PointerKind::Unique,
        access(deref(
            PointerKind::Shared,
            LvalueShape::Name(shared(i32_ty())),
        )),
    ));
    assert_eq!(
        lhs_errors(&deep),
        vec![
            TypecheckError::IllegalSharedRefMutation,
            TypecheckError::IllegalSharedRefMutation
        ]
    );
    // every error is reported, from the outside in
    assert_eq!(
        lhs_errors(&deref(
            PointerKind::Shared,
            access(deref(PointerKind::Shared, LvalueShape::Other))
        )),
        vec![
            TypecheckError::IllegalSharedRefMutation,
            TypecheckError::IllegalSharedRefMutation,
            TypecheckError::IllegalAssignmentLHS
        ]
    );
    assert_eq!(lhs_errors(&LvalueShape::Name(i32_ty())), vec![]);
}

#[test]
fn assignment_through_a_unique_pointer() {
    // let p = unique x; *p = 5
    let ctx = context();
    let target = deref(PointerKind::Unique, LvalueShape::Name(unique(i32_ty())));
    assert_eq!(
        typecheck_assignment(&ctx, &target, &i32_ty(), &i32_ty()),
        Ok(ExpressionType::Void)
    );
    assert_eq!(
        typecheck_assignment(
            &ctx,
            &LvalueShape::Name(i64_ty()),
            &i64_ty(),
            &shared(i32_ty())
        ),
        Ok(ExpressionType::Void)
    );
}

#[test]
fn assignment_needs_a_place_that_accepts_the_value() {
    let ctx = context();
    let x = LvalueShape::Name(i32_ty());
    assert_eq!(
        typecheck_assignment(&ctx, &x, &i32_ty(), &i32_ty()),
        Ok(ExpressionType::Void)
    );
    assert_eq!(
        typecheck_assignment(&ctx, &x, &i32_ty(), &i64_ty()),
        Err(vec![TypecheckError::TypeMismatch {
            expected: i32_ty(),
            received: i64_ty()
        }])
    );
    // what is wrong with the left side and with the right side
    assert_eq!(
        typecheck_assignment(&ctx, &LvalueShape::Other, &i32_ty(), &i64_ty()),
        Err(vec![
            TypecheckError::IllegalAssignmentLHS,
            TypecheckError::TypeMismatch {
                expected: i32_ty(),
                received: i64_ty()
            }
        ])
    );
    assert_eq!(
        typecheck_assignment(&ctx, &LvalueShape::Other, &i32_ty(), &i32_ty()),
        Err(vec![TypecheckError::IllegalAssignmentLHS])
    );
    assert_eq!(
        typecheck_assignment(&ctx, &access(LvalueShape::Other), &i32_ty(), &i32_ty()),
        Err(vec![TypecheckError::IllegalAssignmentLHS])
    );
    // a field of a place, of a type that is a reference
    assert_eq!(
        typecheck_assignment(
            &ctx,
            &access(LvalueShape::Name(ExpressionType::InstanceOf(TypeID(
                FileID(2),
                2
            )))),
            &unique(i32_ty()),
            &unique(i32_ty())
        ),
        Err(vec![TypecheckError::CantAssignToReference])
    );
}

#[test]
fn types_of_names_that_are_assigned_to() {
    let ok = |ty: ExpressionType| validate_assignment_lhs_ty(&ty);
    assert_eq!(ok(i32_ty()), Ok(()));
    assert_eq!(ok(unique(i32_ty())), Ok(()));
    assert_eq!(ok(nullable(unique(i32_ty()))), Ok(()));
    assert_eq!(
        ok(ExpressionType::Collection(CollectionType::String)),
        Ok(())
    );
    assert_eq!(
        ok(shared(i32_ty())),
        Err(TypecheckError::IllegalSharedRefMutation)
    );
    assert_eq!(
        ok(nullable(shared(i32_ty()))),
        Err(TypecheckError::IllegalSharedRefMutation)
    );
    for bad in [
        ExpressionType::Void,
        ExpressionType::Null,
        ExpressionType::Unreachable,
        ExpressionType::ReferenceToType(TypeID(FileID(2), 2)),
        ExpressionType::ReferenceToFunction(FunctionID(FileID(2), 2)),
        ExpressionType::TypeParameterReference(0),
    ] {
        assert_eq!(ok(bad), Err(TypecheckError::IllegalAssignmentLHS));
    }
}

#[test]
fn references_are_never_assigned_to() {
    let ok = |ty: ExpressionType| ensure_no_assignment_to_reference(&ty);
    assert_eq!(ok(i32_ty()), Ok(()));
    assert_eq!(ok(nullable(i32_ty())), Ok(()));
    assert_eq!(
        ok(unique(i32_ty())),
        Err(TypecheckError::CantAssignToReference)
    );
    assert_eq!(
        ok(nullable(shared(i32_ty()))),
        Err(TypecheckError::CantAssignToReference)
    );
    assert_eq!(
        ok(ExpressionType::Void),
        Err(TypecheckError::IllegalAssignmentLHS)
    );
}

#[test]
fn places_that_may_be_borrowed() {
    let name = || LvalueShape::Name(i32_ty());
    assert!(validate_lvalue(&name()));
    assert!(validate_lvalue(&access(name())));
    assert!(validate_lvalue(&deref(PointerKind::Unique, name())));
    assert!(validate_lvalue(&access(deref(
        PointerKind::Unique,
        access(name())
    ))));
    assert!(!validate_lvalue(&deref(PointerKind::Shared, name())));
    assert!(!validate_lvalue(&access(deref(PointerKind::Shared, name()))));
    assert!(!validate_lvalue(&LvalueShape::Other));
    assert!(!validate_lvalue(&access(LvalueShape::Other)));
}

#[test]
fn borrow_bindings() {
    assert_eq!(typecheck_borrow(Some(&LvalueShape::Name(i32_ty()))), Ok(()));
    assert_eq!(
        typecheck_borrow(Some(&LvalueShape::Other)),
        Err(TypecheckError::IllegalNonLvalueBorrow)
    );
    assert_eq!(
        typecheck_borrow(None),
        Err(TypecheckError::IllegalNonRefBorrow)
    );
}

#[test]
fn declarations_bind_no_reference() {
    let ctx = context();
    // let x = 5
    assert_eq!(typecheck_declaration(&ctx, None, &i32_ty()), Ok(i32_ty()));
    // let x: i64? = null
    assert_eq!(
        typecheck_declaration(&ctx, Some(&nullable(i64_ty())), &ExpressionType::Null),
        Ok(nullable(i64_ty()))
    );
    assert_eq!(
        typecheck_declaration(&ctx, Some(&i64_ty()), &i32_ty()),
        Ok(i64_ty())
    );
    assert_eq!(
        typecheck_declaration(&ctx, Some(&i32_ty()), &i64_ty()),
        Err(TypecheckError::TypeMismatch {
            expected: i32_ty(),
            received: i64_ty()
        })
    );
    assert_eq!(
        typecheck_declaration(&ctx, None, &shared(i32_ty())),
        Err(TypecheckError::IllegalFirstClassReference)
    );
    assert_eq!(
        typecheck_declaration(&ctx, Some(&unique(i32_ty())), &i32_ty()),
        Err(TypecheckError::IllegalFirstClassReference)
    );
    for none in [
        ExpressionType::Null,
        ExpressionType::Void,
        ExpressionType::Unreachable,
    ] {
        assert_eq!(
            typecheck_declaration(&ctx, None, &none),
            Err(TypecheckError::NoNullDeclarations)
        );
    }
}

#[test]
fn dereference_needs_a_pointer() {
    assert_eq!(typecheck_dereference(&shared(i32_ty())), Ok(i32_ty()));
    assert_eq!(
        typecheck_dereference(&unique(shared(i32_ty()))),
        Ok(shared(i32_ty()))
    );
    assert_eq!(
        typecheck_dereference(&ExpressionType::Collection(
            CollectionType::ReferenceCounter(Box::new(i64_ty()))
        )),
        Ok(i64_ty())
    );
    assert_eq!(
        typecheck_dereference(&i32_ty()),
        Err(TypecheckError::DereferenceNonPointer)
    );
    assert_eq!(
        typecheck_dereference(&nullable(shared(i32_ty()))),
        Err(TypecheckError::DereferenceNonPointer)
    );
    assert_eq!(
        brick::typecheck::typecheck_take_reference(PointerKind::Shared, &i32_ty()),
        shared(i32_ty())
    );
    assert_eq!(
        brick::typecheck::typecheck_take_reference(PointerKind::Unique, &shared(i32_ty())),
        unique(shared(i32_ty()))
    );
}

#[test]
fn struct_literals() {
    // let s = S{f:1}
    let ctx = context();
    let s = TypeID(FileID(2), 2);
    let given = |fields: Vec<(&str, ExpressionType)>| -> Vec<(String, ExpressionType)> {
        fields
            .into_iter()
            .map(|(name, ty)| (name.to_string(), ty))
            .collect()
    };
    assert_eq!(
        typecheck_struct_literal(
            &ctx,
            s,
            &given(vec![("g", ExpressionType::Null), ("f", i32_ty())])
        ),
        Ok(ExpressionType::InstanceOf(s))
    );
    assert_eq!(
        typecheck_struct_literal(&ctx, s, &given(vec![("f", i32_ty())])),
        Err(TypecheckError::WrongArgsCount)
    );
    assert_eq!(
        typecheck_struct_literal(
            &ctx,
            s,
            &given(vec![("f", i32_ty()), ("h", i32_ty())])
        ),
        Err(TypecheckError::MissingField)
    );
    assert_eq!(
        typecheck_struct_literal(
            &ctx,
            s,
            &given(vec![("f", i64_ty()), ("g", i32_ty())])
        ),
        Err(TypecheckError::TypeMismatch {
            expected: i32_ty(),
            received: i64_ty()
        })
    );
    assert_eq!(
        typecheck_struct_literal(&ctx, TypeID(FileID(2), 3), &given(vec![])),
        Err(TypecheckError::NonStructDeclStructLiteral)
    );
    assert_eq!(
        typecheck_struct_literal(&ctx, TypeID(FileID(2), 9), &given(vec![])),
        Err(TypecheckError::NonStructDeclStructLiteral)
    );
}
