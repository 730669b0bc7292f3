use brick::declaration_context::DeclarationContext;
use brick::id::{FileID, FunctionID, TypeID};
use brick::typecheck::{
    assert_assignable_to, case_binding_type, find_generic_bindings, first_unmatched_variant,
    fully_dereference, has_name, integer_literal_type, is_assignable_to, is_instance_assignable,
    match_union, methods_match, primitive_widens_to, resolve_generics, shallow_dereference,
    struct_satisfies_interface, typecheck_arithmetic, typecheck_block, typecheck_call,
    typecheck_callee, typecheck_comparison, typecheck_dot, typecheck_null_coalesce,
    TypecheckError,
};
use brick::types::{
    CollectionType, Export, ExpressionType, FuncType, InterfaceType, ModuleType, ParameterList,
    PointerKind, PrimitiveType, StructType, TypeDeclaration, UnionType,
};

fn prim(p: PrimitiveType) -> ExpressionType {
    ExpressionType::Primitive(p)
}

fn i32_ty() -> ExpressionType {
    prim(PrimitiveType::Int32)
}

fn i64_ty() -> ExpressionType {
    prim(PrimitiveType::Int64)
}

fn f32_ty() -> ExpressionType {
    prim(PrimitiveType::Float32)
}

fn f64_ty() -> ExpressionType {
    prim(PrimitiveType::Float64)
}

fn bool_ty() -> ExpressionType {
    prim(PrimitiveType::Bool)
}

fn shared(ty: ExpressionType) -> ExpressionType {
    ExpressionType::Pointer(PointerKind::Shared, Box::new(ty))
}

fn unique(ty: ExpressionType) -> ExpressionType {
    ExpressionType::Pointer(PointerKind::Unique, Box::new(ty))
}

fn nullable(ty: ExpressionType) -> ExpressionType {
    ExpressionType::Nullable(Box::new(ty))
}

fn array(ty: ExpressionType) -> ExpressionType {
    ExpressionType::Collection(CollectionType::Array(Box::new(ty)))
}

fn dict(k: ExpressionType, v: ExpressionType) -> ExpressionType {
    ExpressionType::Collection(CollectionType::Dict(Box::new(k), Box::new(v)))
}

fn string_ty() -> ExpressionType {
    ExpressionType::Collection(CollectionType::String)
}

fn param(i: usize) -> ExpressionType {
    ExpressionType::TypeParameterReference(i)
}

fn generator(y: ExpressionType, p: ExpressionType) -> ExpressionType {
    ExpressionType::Generator {
        yield_ty: Box::new(y),
        param_ty: Box::new(p),
    }
}

fn tid(n: u32) -> TypeID {
    TypeID(FileID(2), n)
}

fn fid(n: u32) -> FunctionID {
    FunctionID(FileID(2), n)
}

fn func(id: FunctionID, params: Vec<ExpressionType>, returns: ExpressionType) -> FuncType {
    FuncType {
        id,
        type_param_count: 0,
        params,
        returns,
        is_associated: true,
        is_coroutine: false,
        provenance: None,
    }
}

const STRUCT_S: u32 = 10;
const STRUCT_T: u32 = 11;
const UNION_U: u32 = 12;
const INTERFACE_I: u32 = 13;
const INTERFACE_J: u32 = 14;
const MODULE_M: u32 = 1;

/// struct S { f: i32 } with run(self: shared S): i32 and add(self, i32): i64;
/// struct T { } with run(self: shared T): i64;
/// union U { A, B(i32) }; interface I { run(self): i32 };
/// interface J { run(self): i32, add(self, i64): i64 }.
fn context() -> DeclarationContext {
    let mut ctx = DeclarationContext::empty(FileID(1));
    let s = ExpressionType::InstanceOf(tid(STRUCT_S));
    let t = ExpressionType::InstanceOf(tid(STRUCT_T));
    let i = ExpressionType::InstanceOf(tid(INTERFACE_I));
    let j = ExpressionType::InstanceOf(tid(INTERFACE_J));
    ctx.id_to_func.push(func(fid(1), vec![shared(s.duplicate())], i32_ty()));
    ctx.id_to_func
        .push(func(fid(2), vec![shared(s.duplicate()), i32_ty()], i64_ty()));
    ctx.id_to_func.push(func(fid(3), vec![shared(t)], i64_ty()));
    ctx.id_to_func.push(func(fid(4), vec![i], i32_ty()));
    ctx.id_to_func.push(func(fid(5), vec![j.duplicate()], i32_ty()));
    ctx.id_to_func.push(func(fid(6), vec![j, i64_ty()], i64_ty()));
    ctx.id_to_decl.push(TypeDeclaration::Module(ModuleType {
        id: tid(MODULE_M),
        exports: vec![
            (
                "S".to_string(),
                Export {
                    constant: None,
                    ty: ExpressionType::ReferenceToType(tid(STRUCT_S)),
                },
            ),
            (
                "limit".to_string(),
                Export {
                    constant: Some(brick::id::ConstantID(4)),
                    ty: i64_ty(),
                },
            ),
        ],
    }));
    ctx.id_to_decl.push(TypeDeclaration::Struct(StructType {
        id: tid(STRUCT_S),
        fields: vec![("f".to_string(), i32_ty())],
        associated_functions: vec![("run".to_string(), fid(1)), ("add".to_string(), fid(2))],
        is_affine: false,
    }));
    ctx.id_to_decl.push(TypeDeclaration::Struct(StructType {
        id: tid(STRUCT_T),
        fields: vec![],
        associated_functions: vec![("run".to_string(), fid(3))],
        is_affine: false,
    }));
    ctx.id_to_decl.push(TypeDeclaration::Union(UnionType {
        id: tid(UNION_U),
        variants: vec![("A".to_string(), None), ("B".to_string(), Some(i32_ty()))],
        is_affine: false,
    }));
    ctx.id_to_decl.push(TypeDeclaration::Interface(InterfaceType {
        id: tid(INTERFACE_I),
        associated_functions: vec![("run".to_string(), fid(4))],
    }));
    ctx.id_to_decl.push(TypeDeclaration::Interface(InterfaceType {
        id: tid(INTERFACE_J),
        associated_functions: vec![("run".to_string(), fid(5)), ("add".to_string(), fid(6))],
    }));
    brick::declaration_context::add_intrinsics(&mut ctx);
    ctx
}

fn accepts(left: &ExpressionType, right: &ExpressionType) -> bool {
    is_assignable_to(&context(), None, left, right)
}

#[test]
fn dereference_reads_through_pointers() {
    let deep = shared(unique(shared(i32_ty())));
    assert_eq!(fully_dereference(&deep), &i32_ty());
    assert_eq!(shallow_dereference(&deep), &unique(shared(i32_ty())));
    assert_eq!(fully_dereference(&i32_ty()), &i32_ty());
    assert_eq!(shallow_dereference(&i32_ty()), &i32_ty());
    assert_eq!(
        fully_dereference(&nullable(shared(i32_ty()))),
        &nullable(shared(i32_ty()))
    );
}

#[test]
fn numeric_widening_is_one_way() {
    let all = [
        PrimitiveType::Bool,
        PrimitiveType::Char,
        PrimitiveType::Int32,
        PrimitiveType::Int64,
        PrimitiveType::Float32,
        PrimitiveType::Float64,
        PrimitiveType::PointerSize,
    ];
    let widenings = [
        (PrimitiveType::Int32, PrimitiveType::Int64),
        (PrimitiveType::Int32, PrimitiveType::Float32),
        (PrimitiveType::Int32, PrimitiveType::Float64),
        (PrimitiveType::Int64, PrimitiveType::Float64),
        (PrimitiveType::Float32, PrimitiveType::Float64),
        (PrimitiveType::Int32, PrimitiveType::PointerSize),
    ];
    for from in all {
        for to in all {
            let expected = from == to || widenings.contains(&(from, to));
            assert_eq!(primitive_widens_to(from, to), expected, "{:?} {:?}", from, to);
            assert_eq!(accepts(&prim(to), &prim(from)), expected);
            if from != to && expected {
                assert!(!primitive_widens_to(to, from));
            }
        }
    }
}

#[test]
fn unreachable_is_assignable_to_anything() {
    for left in [
        ExpressionType::Void,
        ExpressionType::Null,
        ExpressionType::Unreachable,
        i32_ty(),
        shared(i32_ty()),
        nullable(i32_ty()),
        string_ty(),
        ExpressionType::InstanceOf(tid(STRUCT_S)),
    ] {
        assert!(accepts(&left, &ExpressionType::Unreachable), "{:?}", left);
    }
    assert!(!accepts(&ExpressionType::Unreachable, &i32_ty()));
}

#[test]
fn void_accepts_only_what_never_returns() {
    assert!(!accepts(&ExpressionType::Void, &ExpressionType::Void));
    assert!(accepts(&ExpressionType::Void, &ExpressionType::Unreachable));
    assert!(!accepts(&ExpressionType::Void, &ExpressionType::Null));
    assert!(!accepts(&ExpressionType::Void, &i32_ty()));
    assert!(!accepts(&i32_ty(), &ExpressionType::Void));
    assert!(!accepts(&nullable(i32_ty()), &ExpressionType::Void));
}

#[test]
fn null_is_assignable_only_to_nullable() {
    assert!(accepts(&nullable(i32_ty()), &ExpressionType::Null));
    assert!(!accepts(&i32_ty(), &ExpressionType::Null));
    assert!(!accepts(&ExpressionType::Null, &ExpressionType::Null));
    assert!(!accepts(&shared(nullable(i32_ty())), &ExpressionType::Null));
}

#[test]
fn nullable_accepts_what_it_holds() {
    assert!(accepts(&nullable(i64_ty()), &i64_ty()));
    assert!(accepts(&nullable(i64_ty()), &i32_ty()));
    assert!(accepts(&nullable(i64_ty()), &nullable(i32_ty())));
    assert!(!accepts(&i64_ty(), &nullable(i64_ty())));
    assert!(!accepts(&nullable(i32_ty()), &i64_ty()));
}

#[test]
fn pointer_kinds() {
    assert!(accepts(&shared(i32_ty()), &shared(i32_ty())));
    assert!(accepts(&shared(i32_ty()), &unique(i32_ty())));
    assert!(accepts(&unique(i32_ty()), &unique(i32_ty())));
    assert!(!accepts(&unique(i32_ty()), &shared(i32_ty())));
    // the right side is read through where the left is no pointer
    assert!(accepts(&i32_ty(), &shared(i32_ty())));
    assert!(accepts(&i64_ty(), &unique(shared(i32_ty()))));
    // the left side is not
    assert!(!accepts(&shared(i32_ty()), &i32_ty()));
}

#[test]
fn collections_and_generators_accept_only_themselves() {
    assert!(accepts(&array(i32_ty()), &array(i32_ty())));
    assert!(!accepts(&array(i64_ty()), &array(i32_ty())));
    assert!(accepts(&string_ty(), &string_ty()));
    assert!(!accepts(&string_ty(), &array(i32_ty())));
    assert!(accepts(
        &dict(i32_ty(), string_ty()),
        &dict(i32_ty(), string_ty())
    ));
    assert!(!accepts(
        &dict(i32_ty(), string_ty()),
        &dict(i64_ty(), string_ty())
    ));
    assert!(accepts(
        &generator(i32_ty(), ExpressionType::Void),
        &generator(i32_ty(), ExpressionType::Void)
    ));
    assert!(!accepts(
        &generator(i64_ty(), ExpressionType::Void),
        &generator(i32_ty(), ExpressionType::Void)
    ));
    assert!(!accepts(&array(i32_ty()), &i32_ty()));
    assert!(!accepts(&i32_ty(), &array(i32_ty())));
}

#[test]
fn declared_types_are_nominal() {
    let ctx = context();
    assert!(is_instance_assignable(&ctx, tid(STRUCT_S), tid(STRUCT_S)));
    assert!(!is_instance_assignable(&ctx, tid(STRUCT_S), tid(STRUCT_T)));
    assert!(is_instance_assignable(&ctx, tid(UNION_U), tid(UNION_U)));
    assert!(!is_instance_assignable(&ctx, tid(UNION_U), tid(STRUCT_S)));
    assert!(!is_instance_assignable(&ctx, tid(STRUCT_S), tid(UNION_U)));
    assert!(is_instance_assignable(&ctx, tid(INTERFACE_I), tid(INTERFACE_I)));
    assert!(!is_instance_assignable(&ctx, tid(INTERFACE_I), tid(INTERFACE_J)));
    assert!(!is_instance_assignable(&ctx, tid(INTERFACE_I), tid(UNION_U)));
    // nothing is a module and a module is nothing
    assert!(!is_instance_assignable(&ctx, tid(MODULE_M), tid(MODULE_M)));
    assert!(!is_instance_assignable(&ctx, tid(STRUCT_S), tid(MODULE_M)));
    // a type that is not declared
    assert!(!is_instance_assignable(&ctx, tid(99), tid(99)));
}

#[test]
fn interface_accepts_struct_that_supplies_its_methods() {
    let ctx = context();
    // S.run(self): i32 matches I.run(self): i32
    assert!(is_instance_assignable(&ctx, tid(INTERFACE_I), tid(STRUCT_S)));
    // T.run returns i64
    assert!(!is_instance_assignable(&ctx, tid(INTERFACE_I), tid(STRUCT_T)));
    // S.add takes i32 where J.add takes i64
    assert!(!is_instance_assignable(&ctx, tid(INTERFACE_J), tid(STRUCT_S)));
    // a struct accepts no interface
    assert!(!is_instance_assignable(&ctx, tid(STRUCT_S), tid(INTERFACE_I)));
    assert!(is_assignable_to(
        &ctx,
        None,
        &ExpressionType::InstanceOf(tid(INTERFACE_I)),
        &ExpressionType::InstanceOf(tid(STRUCT_S))
    ));
    let (i, s) = match (&ctx.id_to_decl[4], &ctx.id_to_decl[1]) {
        (TypeDeclaration::Interface(i), TypeDeclaration::Struct(s)) => (i, s),
        _ => unreachable!(),
    };
    assert!(struct_satisfies_interface(&ctx, i, s));
}

#[test]
fn methods_match_after_self() {
    let a = func(fid(1), vec![i32_ty(), i64_ty()], bool_ty());
    let b = func(fid(2), vec![string_ty(), i64_ty()], bool_ty());
    let c = func(fid(3), vec![string_ty(), i32_ty()], bool_ty());
    let d = func(fid(4), vec![string_ty(), i64_ty()], i32_ty());
    let e = func(fid(5), vec![string_ty(), i64_ty(), i64_ty()], bool_ty());
    let none = func(fid(6), vec![], bool_ty());
    assert!(methods_match(&a, &b));
    assert!(!methods_match(&a, &c));
    assert!(!methods_match(&a, &d));
    assert!(!methods_match(&a, &e));
    assert!(!methods_match(&none, &none));
}

#[test]
fn type_parameter_defers_to_the_binding_table() {
    let ctx = context();
    let table = vec![i64_ty(), ExpressionType::Unreachable];
    assert!(is_assignable_to(&ctx, Some(&table), &param(0), &i32_ty()));
    assert!(!is_assignable_to(&ctx, Some(&table), &param(0), &f64_ty()));
    assert!(is_assignable_to(
        &ctx,
        Some(&table),
        &array(param(0)),
        &array(param(0))
    ));
    // an unbound slot accepts nothing but what never returns
    assert!(!is_assignable_to(&ctx, Some(&table), &param(1), &i32_ty()));
    // no slot, no table
    assert!(!is_assignable_to(&ctx, Some(&table), &param(2), &i32_ty()));
    assert!(!is_assignable_to(&ctx, None, &param(0), &i32_ty()));
    assert!(!is_assignable_to(&ctx, Some(&table), &i64_ty(), &param(0)));
}

#[test]
fn types_and_functions_as_values_are_accepted_nowhere() {
    let ty = ExpressionType::ReferenceToType(tid(STRUCT_S));
    let f = ExpressionType::ReferenceToFunction(fid(1));
    let sig = ExpressionType::FunctionReference {
        parameters: ParameterList::single(i32_ty()),
        returns: Box::new(i32_ty()),
    };
    for x in [&ty, &f, &sig] {
        assert!(!accepts(x, x));
        assert!(!accepts(&i32_ty(), x));
    }
}

#[test]
fn assert_assignable_reports_both_types() {
    let ctx = context();
    assert_eq!(assert_assignable_to(&ctx, &i64_ty(), &i32_ty()), Ok(()));
    assert_eq!(
        assert_assignable_to(&ctx, &i32_ty(), &i64_ty()),
        Err(TypecheckError::TypeMismatch {
            expected: i32_ty(),
            received: i64_ty()
        })
    );
}

#[test]
fn generic_bindings_first_write_wins() {
    let mut table = vec![ExpressionType::Unreachable, ExpressionType::Unreachable];
    find_generic_bindings(&mut table, &param(0), &i32_ty());
    assert_eq!(table, vec![i32_ty(), ExpressionType::Unreachable]);
    find_generic_bindings(&mut table, &param(0), &i64_ty());
    assert_eq!(table, vec![i32_ty(), ExpressionType::Unreachable]);
    find_generic_bindings(
        &mut table,
        &dict(param(0), param(1)),
        &dict(string_ty(), bool_ty()),
    );
    assert_eq!(table, vec![i32_ty(), bool_ty()]);
    // a parameter without a slot binds nothing
    find_generic_bindings(&mut table, &param(5), &i64_ty());
    assert_eq!(table, vec![i32_ty(), bool_ty()]);
}

#[test]
fn generic_bindings_look_into_types() {
    let bind = |left: ExpressionType, right: ExpressionType| {
        let mut table = vec![ExpressionType::Unreachable, ExpressionType::Unreachable];
        find_generic_bindings(&mut table, &left, &right);
        table
    };
    let u = ExpressionType::Unreachable;
    assert_eq!(
        bind(shared(array(param(0))), unique(array(i64_ty()))),
        vec![i64_ty(), u.duplicate()]
    );
    assert_eq!(
        bind(unique(array(param(0))), unique(array(i64_ty()))),
        vec![i64_ty(), u.duplicate()]
    );
    // a unique pointer does not line up with a shared one: what it points
    // to is held against the whole right side
    assert_eq!(
        bind(unique(param(0)), shared(i64_ty())),
        vec![shared(i64_ty()), u.duplicate()]
    );
    assert_eq!(
        bind(shared(param(0)), i64_ty()),
        vec![i64_ty(), u.duplicate()]
    );
    assert_eq!(
        bind(nullable(param(1)), nullable(bool_ty())),
        vec![u.duplicate(), bool_ty()]
    );
    assert_eq!(
        bind(nullable(param(1)), bool_ty()),
        vec![u.duplicate(), bool_ty()]
    );
    assert_eq!(
        bind(
            generator(param(0), param(1)),
            generator(i32_ty(), string_ty())
        ),
        vec![i32_ty(), string_ty()]
    );
    assert_eq!(
        bind(array(param(0)), string_ty()),
        vec![u.duplicate(), u.duplicate()]
    );
    assert_eq!(
        bind(i32_ty(), i64_ty()),
        vec![u.duplicate(), u.duplicate()]
    );
}

#[test]
fn generics_are_resolved_through_the_table() {
    let table = vec![i32_ty(), string_ty()];
    assert_eq!(resolve_generics(&param(0), &table), i32_ty());
    assert_eq!(resolve_generics(&param(7), &table), param(7));
    assert_eq!(
        resolve_generics(&dict(param(0), nullable(param(1))), &table),
        dict(i32_ty(), nullable(string_ty()))
    );
    assert_eq!(
        resolve_generics(&shared(array(param(1))), &table),
        shared(array(string_ty()))
    );
    let sig = ExpressionType::FunctionReference {
        parameters: ParameterList::single(param(1)),
        returns: Box::new(param(0)),
    };
    assert_eq!(
        resolve_generics(&sig, &table),
        ExpressionType::FunctionReference {
            parameters: ParameterList::single(string_ty()),
            returns: Box::new(i32_ty()),
        }
    );
    assert_eq!(resolve_generics(&bool_ty(), &table), bool_ty());
}

#[test]
fn integer_literals_are_32_bits_wide_if_they_fit() {
    assert_eq!(integer_literal_type(0), i32_ty());
    assert_eq!(integer_literal_type(5), i32_ty());
    assert_eq!(integer_literal_type(2147483647), i32_ty());
    assert_eq!(integer_literal_type(2147483648), i64_ty());
    assert_eq!(integer_literal_type(u64::MAX), i64_ty());
}

#[test]
fn arithmetic_takes_the_wider_side() {
    let ctx = context();
    // let x = 5; x + 2
    assert_eq!(typecheck_arithmetic(&ctx, &i32_ty(), &i32_ty()), Ok(i32_ty()));
    assert_eq!(typecheck_arithmetic(&ctx, &i32_ty(), &i64_ty()), Ok(i64_ty()));
    assert_eq!(typecheck_arithmetic(&ctx, &f64_ty(), &i64_ty()), Ok(f64_ty()));
    assert_eq!(typecheck_arithmetic(&ctx, &i32_ty(), &f32_ty()), Ok(f32_ty()));
    assert_eq!(
        typecheck_arithmetic(&ctx, &i64_ty(), &f32_ty()),
        Err(TypecheckError::ArithmeticMismatch)
    );
    assert_eq!(
        typecheck_arithmetic(&ctx, &bool_ty(), &i32_ty()),
        Err(TypecheckError::ArithmeticMismatch)
    );
    assert_eq!(
        typecheck_arithmetic(&ctx, &string_ty(), &i32_ty()),
        Err(TypecheckError::ArithmeticMismatch)
    );
    assert_eq!(
        typecheck_arithmetic(&ctx, &i32_ty(), &nullable(i32_ty())),
        Err(TypecheckError::ArithmeticMismatch)
    );
}

#[test]
fn arithmetic_reads_through_pointers() {
    // let a = 5; let b = shared a; a + b
    let ctx = context();
    assert_eq!(
        typecheck_arithmetic(&ctx, &i32_ty(), &shared(i32_ty())),
        Ok(i32_ty())
    );
    assert_eq!(
        typecheck_arithmetic(&ctx, &shared(i32_ty()), &i64_ty()),
        Ok(i64_ty())
    );
    assert_eq!(
        typecheck_comparison(&unique(i32_ty()), &shared(f64_ty())),
        Ok(bool_ty())
    );
}

#[test]
fn comparison_yields_bool() {
    assert_eq!(typecheck_comparison(&i32_ty(), &f64_ty()), Ok(bool_ty()));
    assert_eq!(typecheck_comparison(&bool_ty(), &i32_ty()), Ok(bool_ty()));
    assert_eq!(
        typecheck_comparison(&string_ty(), &i32_ty()),
        Err(TypecheckError::ArithmeticMismatch)
    );
    assert_eq!(
        typecheck_comparison(&i32_ty(), &ExpressionType::Null),
        Err(TypecheckError::ArithmeticMismatch)
    );
}

#[test]
fn null_coalesce_yields_what_the_nullable_holds() {
    // let x: i64? = null; x ?? 3
    let ctx = context();
    assert_eq!(
        typecheck_null_coalesce(&ctx, &nullable(i64_ty()), &integer_literal_type(3)),
        Ok(i64_ty())
    );
    assert_eq!(
        typecheck_null_coalesce(&ctx, &i64_ty(), &i32_ty()),
        Err(TypecheckError::ExpectedNullableLHS)
    );
    assert_eq!(
        typecheck_null_coalesce(&ctx, &nullable(i32_ty()), &string_ty()),
        Err(TypecheckError::TypeMismatch {
            expected: i32_ty(),
            received: string_ty()
        })
    );
}

fn union_u() -> UnionType {
    UnionType {
        id: tid(UNION_U),
        variants: vec![("A".to_string(), None), ("B".to_string(), Some(i32_ty()))],
        is_affine: false,
    }
}

#[test]
fn match_must_cover_every_variant() {
    // match u { case A => 0, case B(x) => x }
    let both = vec!["A".to_string(), "B".to_string()];
    assert_eq!(first_unmatched_variant(&union_u(), &both), None);
    let swapped = vec!["B".to_string(), "A".to_string(), "B".to_string()];
    assert_eq!(first_unmatched_variant(&union_u(), &swapped), None);
    // removing the `A` case
    let only_b = vec!["B".to_string()];
    assert_eq!(first_unmatched_variant(&union_u(), &only_b), Some(0));
    let only_a = vec!["A".to_string()];
    assert_eq!(first_unmatched_variant(&union_u(), &only_a), Some(1));
    assert_eq!(first_unmatched_variant(&union_u(), &vec![]), Some(0));
    let empty = UnionType {
        id: tid(UNION_U),
        variants: vec![],
        is_affine: false,
    };
    assert_eq!(first_unmatched_variant(&empty, &vec![]), None);
    assert!(has_name(&both, &"B".to_string()));
    assert!(!has_name(&both, &"C".to_string()));
}

#[test]
fn match_needs_a_union() {
    let ctx = context();
    let u = ExpressionType::InstanceOf(tid(UNION_U));
    assert_eq!(match_union(&ctx, &u), Ok(&union_u()));
    assert_eq!(match_union(&ctx, &shared(u.duplicate())), Ok(&union_u()));
    assert_eq!(
        match_union(&ctx, &shared(shared(u))),
        Err(TypecheckError::CaseStatementRequiresUnion)
    );
    assert_eq!(
        match_union(&ctx, &ExpressionType::InstanceOf(tid(STRUCT_S))),
        Err(TypecheckError::CaseStatementRequiresUnion)
    );
    assert_eq!(
        match_union(&ctx, &i32_ty()),
        Err(TypecheckError::CaseStatementRequiresUnion)
    );
}

#[test]
fn case_binding_follows_the_pointer_of_the_scrutinee() {
    let u = ExpressionType::InstanceOf(tid(UNION_U));
    assert_eq!(case_binding_type(&u, &i32_ty()), i32_ty());
    assert_eq!(
        case_binding_type(&shared(u.duplicate()), &i32_ty()),
        shared(i32_ty())
    );
    assert_eq!(case_binding_type(&unique(u), &i32_ty()), unique(i32_ty()));
}

#[test]
fn block_has_the_type_of_its_last_child() {
    let void = ExpressionType::Void;
    assert_eq!(typecheck_block(&vec![]), Ok(ExpressionType::Void));
    assert_eq!(typecheck_block(&vec![i32_ty()]), Ok(i32_ty()));
    assert_eq!(
        typecheck_block(&vec![void.duplicate(), void.duplicate(), i64_ty()]),
        Ok(i64_ty())
    );
    assert_eq!(
        typecheck_block(&vec![void.duplicate(), i32_ty(), i64_ty(), string_ty()]),
        Err((
            1,
            TypecheckError::TypeMismatch {
                expected: ExpressionType::Void,
                received: i32_ty()
            }
        ))
    );
    assert_eq!(
        typecheck_block(&vec![void.duplicate(), shared(i32_ty())]),
        Err((1, TypecheckError::IllegalFirstClassReference))
    );
}

#[test]
fn unreachable_propagates_through_a_block() {
    let void = ExpressionType::Void;
    let never = ExpressionType::Unreachable;
    assert_eq!(
        typecheck_block(&vec![void.duplicate(), never.duplicate(), i32_ty(), i64_ty()]),
        Ok(ExpressionType::Unreachable)
    );
    assert_eq!(
        typecheck_block(&vec![void.duplicate(), never.duplicate()]),
        Ok(ExpressionType::Unreachable)
    );
    assert_eq!(
        typecheck_block(&vec![never.duplicate(), shared(i32_ty())]),
        Ok(ExpressionType::Unreachable)
    );
    assert_eq!(
        typecheck_block(&vec![i32_ty(), never, void]),
        Err((
            0,
            TypecheckError::TypeMismatch {
                expected: ExpressionType::Void,
                received: i32_ty()
            }
        ))
    );
}

#[test]
fn dot_on_a_struct_value() {
    // struct S { f: i32 } fn S.m(self: shared S): i32 { self.f }
    let ctx = context();
    let s = ExpressionType::InstanceOf(tid(STRUCT_S));
    assert_eq!(typecheck_dot(&ctx, &s, &"f".to_string()), Ok(i32_ty()));
    assert_eq!(
        typecheck_dot(&ctx, &shared(s.duplicate()), &"f".to_string()),
        Ok(i32_ty())
    );
    assert_eq!(
        typecheck_dot(&ctx, &s, &"run".to_string()),
        Ok(ExpressionType::ReferenceToFunction(fid(1)))
    );
    assert_eq!(
        typecheck_dot(&ctx, &s, &"nope".to_string()),
        Err(TypecheckError::FieldNotPresent)
    );
    assert_eq!(
        typecheck_dot(
            &ctx,
            &ExpressionType::InstanceOf(tid(INTERFACE_I)),
            &"run".to_string()
        ),
        Ok(ExpressionType::ReferenceToFunction(fid(4)))
    );
    assert_eq!(
        typecheck_dot(
            &ctx,
            &ExpressionType::InstanceOf(tid(UNION_U)),
            &"A".to_string()
        ),
        Err(TypecheckError::FieldNotPresent)
    );
}

#[test]
fn dot_on_a_union_type_yields_a_constructor() {
    let ctx = context();
    let u = ExpressionType::ReferenceToType(tid(UNION_U));
    assert_eq!(
        typecheck_dot(&ctx, &u, &"A".to_string()),
        Ok(ExpressionType::InstanceOf(tid(UNION_U)))
    );
    assert_eq!(
        typecheck_dot(&ctx, &u, &"B".to_string()),
        Ok(ExpressionType::FunctionReference {
            parameters: ParameterList::Cons(Box::new(i32_ty()), Box::new(ParameterList::Nil)),
            returns: Box::new(ExpressionType::InstanceOf(tid(UNION_U))),
        })
    );
    assert_eq!(
        typecheck_dot(&ctx, &u, &"C".to_string()),
        Err(TypecheckError::FieldNotPresent)
    );
    assert_eq!(
        typecheck_dot(
            &ctx,
            &ExpressionType::ReferenceToType(tid(STRUCT_S)),
            &"f".to_string()
        ),
        Err(TypecheckError::IllegalDotLHS)
    );
}

#[test]
fn dot_on_a_module_yields_the_export() {
    let ctx = context();
    let m = ExpressionType::ReferenceToType(tid(MODULE_M));
    assert_eq!(
        typecheck_dot(&ctx, &m, &"S".to_string()),
        Ok(ExpressionType::ReferenceToType(tid(STRUCT_S)))
    );
    assert_eq!(typecheck_dot(&ctx, &m, &"limit".to_string()), Ok(i64_ty()));
    assert_eq!(
        typecheck_dot(&ctx, &m, &"nope".to_string()),
        Err(TypecheckError::ExportNotFound)
    );
}

#[test]
fn dot_on_a_collection_yields_its_intrinsic() {
    let ctx = context();
    let f = |n: u32| ExpressionType::ReferenceToFunction(FunctionID(FileID(1), n));
    assert_eq!(
        typecheck_dot(&ctx, &array(i32_ty()), &"len".to_string()),
        Ok(f(1))
    );
    assert_eq!(
        typecheck_dot(&ctx, &unique(array(i32_ty())), &"push".to_string()),
        Ok(f(2))
    );
    assert_eq!(
        typecheck_dot(
            &ctx,
            &dict(i32_ty(), i32_ty()),
            &"contains_key".to_string()
        ),
        Ok(f(3))
    );
    assert_eq!(
        typecheck_dot(&ctx, &dict(i32_ty(), i32_ty()), &"insert".to_string()),
        Ok(f(4))
    );
    assert_eq!(
        typecheck_dot(
            &ctx,
            &ExpressionType::Collection(CollectionType::ReferenceCounter(Box::new(i32_ty()))),
            &"clone".to_string()
        ),
        Ok(f(5))
    );
    assert_eq!(
        typecheck_dot(
            &ctx,
            &ExpressionType::Collection(CollectionType::Cell(Box::new(i32_ty()))),
            &"set".to_string()
        ),
        Ok(f(7))
    );
    assert_eq!(
        typecheck_dot(&ctx, &array(i32_ty()), &"pop".to_string()),
        Err(TypecheckError::FieldNotPresent)
    );
    assert_eq!(
        typecheck_dot(&ctx, &string_ty(), &"len".to_string()),
        Err(TypecheckError::IllegalDotLHS)
    );
    assert_eq!(
        typecheck_dot(&ctx, &i32_ty(), &"len".to_string()),
        Err(TypecheckError::IllegalDotLHS)
    );
}

#[test]
fn call_of_a_plain_function() {
    let ctx = context();
    let mut f = func(fid(9), vec![i64_ty(), bool_ty()], string_ty());
    f.is_associated = false;
    assert_eq!(
        typecheck_call(&ctx, &f, None, &vec![i32_ty(), bool_ty()]),
        Ok(string_ty())
    );
    assert_eq!(
        typecheck_call(&ctx, &f, None, &vec![i32_ty()]),
        Err(TypecheckError::WrongArgsCount)
    );
    assert_eq!(
        typecheck_call(&ctx, &f, None, &vec![f64_ty(), i32_ty()]),
        Err(TypecheckError::TypeMismatch {
            expected: i64_ty(),
            received: f64_ty()
        })
    );
    assert_eq!(
        typecheck_call(&ctx, &f, None, &vec![i32_ty(), i32_ty()]),
        Err(TypecheckError::TypeMismatch {
            expected: bool_ty(),
            received: i32_ty()
        })
    );
}

#[test]
fn call_of_a_method_leaves_self_out_of_the_count() {
    // s.m() where fn S.m(self: shared S): i32
    let ctx = context();
    let s = ExpressionType::InstanceOf(tid(STRUCT_S));
    let run = ctx.func(fid(1)).unwrap();
    assert_eq!(typecheck_call(&ctx, run, Some(&s), &vec![]), Ok(i32_ty()));
    assert_eq!(
        typecheck_call(&ctx, run, Some(&s), &vec![i32_ty()]),
        Err(TypecheckError::WrongArgsCount)
    );
    let add = ctx.func(fid(2)).unwrap();
    assert_eq!(
        typecheck_call(&ctx, add, Some(&s), &vec![i32_ty()]),
        Ok(i64_ty())
    );
    let broken = func(fid(8), vec![], i32_ty());
    assert_eq!(
        typecheck_call(&ctx, &broken, Some(&s), &vec![]),
        Err(TypecheckError::WrongArgsCount)
    );
}

#[test]
fn call_infers_generic_arguments() {
    // let arr = list[i32][1,2,3]; arr.push(4)
    let ctx = context();
    let push = ctx.func(FunctionID(FileID(1), 2)).unwrap();
    let receiver = unique(array(i32_ty()));
    assert_eq!(
        typecheck_call(&ctx, push, Some(&receiver), &vec![i32_ty()]),
        Ok(ExpressionType::Void)
    );
    assert_eq!(
        typecheck_call(&ctx, push, Some(&receiver), &vec![string_ty()]),
        Err(TypecheckError::TypeMismatch {
            expected: param(0),
            received: string_ty()
        })
    );
    // without a receiver the first argument binds the parameter
    assert_eq!(
        typecheck_call(&ctx, push, None, &vec![string_ty()]),
        Ok(ExpressionType::Void)
    );
    let clone = ctx.func(FunctionID(FileID(1), 5)).unwrap();
    let rc = ExpressionType::Collection(CollectionType::ReferenceCounter(Box::new(string_ty())));
    assert_eq!(
        typecheck_call(&ctx, clone, Some(&shared(rc.duplicate())), &vec![]),
        Ok(rc)
    );
    let insert = ctx.func(FunctionID(FileID(1), 4)).unwrap();
    let d = unique(dict(i32_ty(), string_ty()));
    assert_eq!(
        typecheck_call(&ctx, insert, Some(&d), &vec![i32_ty(), string_ty()]),
        Ok(ExpressionType::Void)
    );
    assert_eq!(
        typecheck_call(&ctx, insert, Some(&d), &vec![i32_ty(), i32_ty()]),
        Err(TypecheckError::TypeMismatch {
            expected: param(1),
            received: i32_ty()
        })
    );
}

#[test]
fn call_of_a_variant_constructor() {
    // U.B(5)
    let ctx = context();
    let u = ExpressionType::ReferenceToType(tid(UNION_U));
    let constructor = typecheck_dot(&ctx, &u, &"B".to_string()).unwrap();
    assert_eq!(
        typecheck_callee(&ctx, &constructor, None, &vec![i32_ty()]),
        Ok(ExpressionType::InstanceOf(tid(UNION_U)))
    );
    assert_eq!(
        typecheck_callee(&ctx, &constructor, None, &vec![string_ty()]),
        Err(TypecheckError::TypeMismatch {
            expected: i32_ty(),
            received: string_ty()
        })
    );
}

#[test]
fn call_of_a_generator_resumes_it() {
    let ctx = context();
    let plain = generator(i32_ty(), ExpressionType::Void);
    assert_eq!(typecheck_callee(&ctx, &plain, None, &vec![]), Ok(i32_ty()));
    assert_eq!(
        typecheck_callee(&ctx, &shared(plain.duplicate()), None, &vec![]),
        Ok(i32_ty())
    );
    assert_eq!(
        typecheck_callee(&ctx, &plain, None, &vec![i32_ty()]),
        Err(TypecheckError::WrongArgsCount)
    );
    let fed = generator(string_ty(), i64_ty());
    assert_eq!(
        typecheck_callee(&ctx, &fed, None, &vec![i32_ty()]),
        Ok(string_ty())
    );
    assert_eq!(
        typecheck_callee(&ctx, &fed, None, &vec![]),
        Err(TypecheckError::WrongArgsCount)
    );
    assert_eq!(
        typecheck_callee(&ctx, &fed, None, &vec![bool_ty()]),
        Err(TypecheckError::TypeMismatch {
            expected: i64_ty(),
            received: bool_ty()
        })
    );
}

#[test]
fn call_of_what_is_named_or_not_callable() {
    let ctx = context();
    let s = ExpressionType::InstanceOf(tid(STRUCT_S));
    let run = ExpressionType::ReferenceToFunction(fid(1));
    assert_eq!(
        typecheck_callee(&ctx, &run, Some(&s), &vec![]),
        Ok(i32_ty())
    );
    assert_eq!(
        typecheck_callee(
            &ctx,
            &ExpressionType::ReferenceToFunction(fid(99)),
            None,
            &vec![]
        ),
        Err(TypecheckError::CantCall)
    );
    assert_eq!(
        typecheck_callee(&ctx, &i32_ty(), None, &vec![]),
        Err(TypecheckError::CantCall)
    );
    assert_eq!(
        typecheck_callee(&ctx, &s, None, &vec![]),
        Err(TypecheckError::CantCall)
    );
}
