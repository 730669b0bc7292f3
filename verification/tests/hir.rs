use brick::declaration_context::DeclarationContext;
use brick::declaration_context::{add_intrinsics, IntrinsicFunction};
use brick::hir::{
    dereferences_needed, expected_type_for_child, find_intrinsic, interface_conversion,
    interface_vtable, numeric_cast, rewrite_associated_function, union_literal_of, widen_null,
    ArithmeticOp, BinaryLogicalOp, ComparisonOp, MethodCall, Parent, UnaryLogicalOp,
};
use brick::types::{CollectionType, FuncType};
use brick::id::{FileID, FunctionID, TypeID};
use brick::types::{
    ExpressionType, InterfaceType, PointerKind, PrimitiveType, StructType, TypeDeclaration,
    UnionType,
};

fn prim(p: PrimitiveType) -> ExpressionType {
    ExpressionType::Primitive(p)
}

fn nullable(ty: ExpressionType) -> ExpressionType {
    ExpressionType::Nullable(Box::new(ty))
}

fn pointer(kind: PointerKind, ty: ExpressionType) -> ExpressionType {
    ExpressionType::Pointer(kind, Box::new(ty))
}

fn tid(n: u32) -> TypeID {
    TypeID(FileID(2), n)
}

fn fid(n: u32) -> FunctionID {
    FunctionID(FileID(2), n)
}

/// interface I { run, stop }; struct S { stop, other, run }; struct T { run }; union U {}
fn context() -> DeclarationContext {
    let mut ctx = DeclarationContext::empty(FileID(1));
    ctx.id_to_decl.push(TypeDeclaration::Interface(InterfaceType {
        id: tid(2),
        associated_functions: vec![("run".to_string(), fid(1)), ("stop".to_string(), fid(2))],
    }));
    ctx.id_to_decl.push(TypeDeclaration::Struct(StructType {
        id: tid(3),
        fields: vec![],
        associated_functions: vec![
            ("stop".to_string(), fid(10)),
            ("other".to_string(), fid(11)),
            ("run".to_string(), fid(12)),
        ],
        is_affine: false,
    }));
    ctx.id_to_decl.push(TypeDeclaration::Struct(StructType {
        id: tid(4),
        fields: vec![],
        associated_functions: vec![("run".to_string(), fid(20))],
        is_affine: false,
    }));
    ctx.id_to_decl.push(TypeDeclaration::Union(UnionType {
        id: tid(5),
        variants: vec![],
        is_affine: false,
    }));
    ctx
}

#[test]
fn operators() {
    assert_ne!(ArithmeticOp::Add, ArithmeticOp::Subtract);
    assert_ne!(ArithmeticOp::Multiply, ArithmeticOp::Divide);
    assert_ne!(ComparisonOp::LessThan, ComparisonOp::GreaterEqualThan);
    assert_ne!(ComparisonOp::EqualTo, ComparisonOp::NotEquals);
    assert_ne!(ComparisonOp::GreaterThan, ComparisonOp::LessEqualThan);
    assert_ne!(BinaryLogicalOp::BooleanAnd, BinaryLogicalOp::BooleanOr);
    assert_eq!(UnaryLogicalOp::BooleanNot, UnaryLogicalOp::BooleanNot);
}

#[test]
fn dot_reads_through_every_pointer() {
    // self.f where self: shared S
    let s = ExpressionType::InstanceOf(tid(3));
    assert_eq!(dereferences_needed(&s), Some(0));
    assert_eq!(
        dereferences_needed(&pointer(PointerKind::Shared, s.duplicate())),
        Some(1)
    );
    assert_eq!(
        dereferences_needed(&pointer(
            PointerKind::Unique,
            pointer(PointerKind::Shared, pointer(PointerKind::Shared, s))
        )),
        Some(3)
    );
    assert_eq!(
        dereferences_needed(&nullable(pointer(
            PointerKind::Shared,
            prim(PrimitiveType::Int32)
        ))),
        Some(0)
    );
}

#[test]
fn narrower_numbers_are_cast() {
    let cast = |expected, actual| numeric_cast(&prim(expected), &prim(actual));
    assert_eq!(
        cast(PrimitiveType::Int64, PrimitiveType::Int32),
        Some((PrimitiveType::Int32, PrimitiveType::Int64))
    );
    assert_eq!(
        cast(PrimitiveType::Float64, PrimitiveType::Float32),
        Some((PrimitiveType::Float32, PrimitiveType::Float64))
    );
    assert_eq!(
        cast(PrimitiveType::PointerSize, PrimitiveType::Int32),
        Some((PrimitiveType::Int32, PrimitiveType::PointerSize))
    );
    assert_eq!(cast(PrimitiveType::Int64, PrimitiveType::Int64), None);
    assert_eq!(cast(PrimitiveType::Int32, PrimitiveType::Int64), None);
    assert_eq!(cast(PrimitiveType::Int64, PrimitiveType::Float32), None);
    assert_eq!(cast(PrimitiveType::Bool, PrimitiveType::Int32), None);
    assert_eq!(
        numeric_cast(
            &nullable(prim(PrimitiveType::Int64)),
            &prim(PrimitiveType::Int32)
        ),
        None
    );
    // what was cast is not cast again
    let (_, to) = cast(PrimitiveType::Int64, PrimitiveType::Int32).unwrap();
    assert_eq!(cast(PrimitiveType::Int64, to), None);
}

#[test]
fn values_are_made_nullable_once() {
    let expected = nullable(prim(PrimitiveType::Int64));
    assert!(widen_null(&expected, &prim(PrimitiveType::Int64)));
    assert!(widen_null(&expected, &ExpressionType::InstanceOf(tid(3))));
    assert!(!widen_null(&expected, &ExpressionType::Null));
    assert!(!widen_null(&expected, &nullable(prim(PrimitiveType::Int64))));
    assert!(!widen_null(&expected, &expected));
    assert!(!widen_null(
        &prim(PrimitiveType::Int64),
        &prim(PrimitiveType::Int64)
    ));
}

#[test]
fn struct_is_wrapped_with_the_table_of_its_methods() {
    // interface I { fn run(self): i32 } ... let i: I = S{}
    let ctx = context();
    let i = ExpressionType::InstanceOf(tid(2));
    let s = ExpressionType::InstanceOf(tid(3));
    assert_eq!(
        interface_conversion(&ctx, &i, &s),
        Some(vec![(fid(1), fid(12)), (fid(2), fid(10))])
    );
    // what was wrapped has the type of the interface and is not wrapped again
    assert_eq!(interface_conversion(&ctx, &i, &i), None);
    // T lacks `stop`
    assert_eq!(
        interface_conversion(&ctx, &i, &ExpressionType::InstanceOf(tid(4))),
        None
    );
    assert_eq!(
        interface_conversion(&ctx, &i, &ExpressionType::InstanceOf(tid(5))),
        None
    );
    assert_eq!(interface_conversion(&ctx, &s, &s), None);
    assert_eq!(interface_conversion(&ctx, &s, &i), None);
    assert_eq!(
        interface_conversion(&ctx, &i, &prim(PrimitiveType::Int32)),
        None
    );
    assert_eq!(
        interface_conversion(
            &ctx,
            &ExpressionType::InstanceOf(tid(9)),
            &ExpressionType::InstanceOf(tid(3))
        ),
        None
    );
    let empty = InterfaceType {
        id: tid(8),
        associated_functions: vec![],
    };
    let st = match &ctx.id_to_decl[2] {
        TypeDeclaration::Struct(st) => st,
        _ => unreachable!(),
    };
    assert_eq!(interface_vtable(&empty, st), Some(vec![]));
}

#[test]
fn methods_are_called_directly_or_through_the_table() {
    // s.m() and i.run()
    let ctx = context();
    let call = |ty: ExpressionType, name: &str| {
        rewrite_associated_function(&ctx, &ty, &name.to_string())
    };
    assert_eq!(
        call(ExpressionType::InstanceOf(tid(3)), "run"),
        Some(MethodCall::Direct(fid(12)))
    );
    assert_eq!(
        call(ExpressionType::InstanceOf(tid(2)), "run"),
        Some(MethodCall::Vtable(fid(1)))
    );
    assert_eq!(
        call(ExpressionType::InstanceOf(tid(2)), "stop"),
        Some(MethodCall::Vtable(fid(2)))
    );
    assert_eq!(call(ExpressionType::InstanceOf(tid(3)), "nope"), None);
    assert_eq!(call(ExpressionType::InstanceOf(tid(5)), "run"), None);
    assert_eq!(call(ExpressionType::InstanceOf(tid(9)), "run"), None);
    assert_eq!(call(prim(PrimitiveType::Int32), "run"), None);
    assert_eq!(
        call(
            pointer(PointerKind::Shared, ExpressionType::InstanceOf(tid(3))),
            "run"
        ),
        None
    );
}

#[test]
fn union_literals() {
    let ctx = context();
    assert_eq!(
        union_literal_of(&ctx, &ExpressionType::ReferenceToType(tid(5))),
        Some(tid(5))
    );
    assert_eq!(
        union_literal_of(&ctx, &ExpressionType::ReferenceToType(tid(3))),
        None
    );
    assert_eq!(
        union_literal_of(&ctx, &ExpressionType::InstanceOf(tid(5))),
        None
    );
    assert_eq!(
        union_literal_of(&ctx, &ExpressionType::ReferenceToType(tid(9))),
        None
    );
}

fn expecting() -> DeclarationContext {
    let mut ctx = context();
    ctx.id_to_decl.push(TypeDeclaration::Struct(StructType {
        id: tid(6),
        fields: vec![
            ("f".to_string(), prim(PrimitiveType::Int32)),
            ("g".to_string(), nullable(prim(PrimitiveType::Int64))),
        ],
        associated_functions: vec![],
        is_affine: false,
    }));
    ctx.id_to_decl.push(TypeDeclaration::Union(UnionType {
        id: tid(7),
        variants: vec![
            ("A".to_string(), None),
            ("B".to_string(), Some(prim(PrimitiveType::Int64))),
        ],
        is_affine: false,
    }));
    ctx.id_to_func.push(FuncType {
        id: fid(1),
        type_param_count: 0,
        params: vec![
            ExpressionType::InstanceOf(tid(2)),
            prim(PrimitiveType::Int64),
        ],
        returns: ExpressionType::Void,
        is_associated: true,
        is_coroutine: false,
        provenance: None,
    });
    add_intrinsics(&mut ctx);
    ctx
}

#[test]
fn parents_expect_types_of_their_children() {
    let ctx = expecting();
    let i32_ty = || prim(PrimitiveType::Int32);
    let i64_ty = || prim(PrimitiveType::Int64);
    let bool_ty = || prim(PrimitiveType::Bool);
    let size = || prim(PrimitiveType::PointerSize);
    let string = || ExpressionType::Collection(CollectionType::String);
    let array = |ty| ExpressionType::Collection(CollectionType::Array(Box::new(ty)));
    let expect = |parent: Parent, position| expected_type_for_child(&ctx, &parent, position);

    assert_eq!(expect(Parent::ArrayIndex, 0), None);
    assert_eq!(expect(Parent::ArrayIndex, 1), Some(size()));
    assert_eq!(expect(Parent::Arithmetic(i64_ty()), 0), Some(i64_ty()));
    assert_eq!(expect(Parent::Arithmetic(i64_ty()), 1), Some(i64_ty()));
    assert_eq!(expect(Parent::Arithmetic(i64_ty()), 2), None);
    // the side that the other accepts is given the type of the other
    assert_eq!(expect(Parent::Comparison(i64_ty(), i32_ty()), 1), Some(i64_ty()));
    assert_eq!(expect(Parent::Comparison(i64_ty(), i32_ty()), 0), None);
    assert_eq!(expect(Parent::Comparison(i32_ty(), i64_ty()), 0), Some(i64_ty()));
    assert_eq!(expect(Parent::Comparison(i32_ty(), i64_ty()), 1), None);
    assert_eq!(
        expect(Parent::NullCoalesce(i64_ty()), 0),
        Some(nullable(i64_ty()))
    );
    assert_eq!(expect(Parent::NullCoalesce(i64_ty()), 1), Some(i64_ty()));
    assert_eq!(expect(Parent::BinaryLogical, 1), Some(bool_ty()));
    assert_eq!(expect(Parent::UnaryLogical, 0), Some(bool_ty()));
    assert_eq!(expect(Parent::UnaryLogical, 1), None);
    assert_eq!(expect(Parent::If, 0), Some(bool_ty()));
    assert_eq!(expect(Parent::If, 1), None);
    assert_eq!(expect(Parent::While, 0), Some(bool_ty()));
    assert_eq!(expect(Parent::StringConcat, 0), Some(string()));
    assert_eq!(expect(Parent::StringConcat, 1), Some(string()));
    assert_eq!(expect(Parent::Assignment(i64_ty()), 1), Some(i64_ty()));
    assert_eq!(expect(Parent::Assignment(i64_ty()), 0), None);
    assert_eq!(expect(Parent::ArrayLiteral(array(i32_ty())), 5), Some(i32_ty()));
    assert_eq!(expect(Parent::ArrayLiteral(i32_ty()), 0), None);
    assert_eq!(
        expect(Parent::ArrayLiteralLength(array(string())), 0),
        Some(string())
    );
    assert_eq!(
        expect(Parent::ArrayLiteralLength(array(string())), 1),
        Some(size())
    );
    assert_eq!(expect(Parent::Other, 0), None);
}

#[test]
fn declarations_say_what_is_expected() {
    let ctx = expecting();
    let i64_ty = || prim(PrimitiveType::Int64);
    let expect = |parent: Parent, position| expected_type_for_child(&ctx, &parent, position);
    assert_eq!(
        expect(Parent::StructLiteral(tid(6), "g".to_string()), 0),
        Some(nullable(i64_ty()))
    );
    assert_eq!(
        expect(Parent::StructLiteral(tid(6), "h".to_string()), 0),
        None
    );
    assert_eq!(
        expect(Parent::StructLiteral(tid(7), "g".to_string()), 0),
        None
    );
    assert_eq!(
        expect(Parent::UnionLiteral(tid(7), "B".to_string()), 0),
        Some(i64_ty())
    );
    assert_eq!(
        expect(Parent::UnionLiteral(tid(7), "A".to_string()), 0),
        None
    );
    // what is called expects nothing; its arguments have the types of its parameters
    let callee = ExpressionType::ReferenceToFunction(fid(1));
    assert_eq!(expect(Parent::Call(callee.duplicate()), 0), None);
    assert_eq!(
        expect(Parent::Call(callee.duplicate()), 1),
        Some(ExpressionType::InstanceOf(tid(2)))
    );
    assert_eq!(expect(Parent::Call(callee.duplicate()), 2), Some(i64_ty()));
    assert_eq!(expect(Parent::Call(callee), 3), None);
    assert_eq!(expect(Parent::Call(i64_ty()), 1), None);
    assert_eq!(
        expect(Parent::VtableCall(fid(1)), 1),
        Some(ExpressionType::InstanceOf(tid(2)))
    );
    assert_eq!(expect(Parent::VtableCall(fid(1)), 2), Some(i64_ty()));
    assert_eq!(expect(Parent::VtableCall(fid(1)), 0), None);
    assert_eq!(
        expect(Parent::IntrinsicCall(IntrinsicFunction::ArrayPush), 1),
        Some(ExpressionType::TypeParameterReference(0))
    );
    assert_eq!(
        expect(Parent::IntrinsicCall(IntrinsicFunction::ArrayFree), 0),
        None
    );
    assert_eq!(
        find_intrinsic(&ctx.intrinsic_to_id, IntrinsicFunction::CellSet),
        Some(FunctionID(FileID(1), 7))
    );
    assert_eq!(
        find_intrinsic(&ctx.intrinsic_to_id, IntrinsicFunction::RcFree),
        None
    );
}

#[test]
fn literal_is_wrapped_where_an_interface_is_expected() {
    // fn take(i: I, n: i64) called with a struct and a narrower number
    let ctx = expecting();
    let call = Parent::Call(ExpressionType::ReferenceToFunction(fid(1)));
    let first = expected_type_for_child(&ctx, &call, 1).unwrap();
    assert_eq!(
        interface_conversion(&ctx, &first, &ExpressionType::InstanceOf(tid(3))),
        Some(vec![(fid(1), fid(12)), (fid(2), fid(10))])
    );
    assert_eq!(interface_conversion(&ctx, &first, &first), None);
    let second = expected_type_for_child(&ctx, &call, 2).unwrap();
    assert_eq!(
        numeric_cast(&second, &prim(PrimitiveType::Int32)),
        Some((PrimitiveType::Int32, PrimitiveType::Int64))
    );
    assert_eq!(numeric_cast(&second, &second), None);
    let field =
        expected_type_for_child(&ctx, &Parent::StructLiteral(tid(6), "g".to_string()), 0).unwrap();
    assert!(widen_null(&field, &prim(PrimitiveType::Int64)));
    assert!(!widen_null(&field, &field));
}
