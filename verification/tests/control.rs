use brick::declaration_context::DeclarationContext;
use brick::id::{FileID, FunctionID, TypeID};
use brick::typecheck::{
    typecheck_case_bindings, typecheck_compound_assignment, typecheck_concat,
    typecheck_condition, typecheck_function_body, typecheck_if, typecheck_logical,
    typecheck_match_result, typecheck_return, typecheck_while, typecheck_yield, CaseVariant,
    LvalueShape, TypecheckError,
};
use brick::types::{
    CollectionType, ExpressionType, FuncType, PointerKind, PrimitiveType, UnionType,
};

fn i32_ty() -> ExpressionType {
    ExpressionType::Primitive(PrimitiveType::Int32)
}

fn i64_ty() -> ExpressionType {
    ExpressionType::Primitive(PrimitiveType::Int64)
}

fn bool_ty() -> ExpressionType {
    ExpressionType::Primitive(PrimitiveType::Bool)
}

fn shared(ty: ExpressionType) -> ExpressionType {
    ExpressionType::Pointer(PointerKind::Shared, Box::new(ty))
}

fn mismatch(expected: ExpressionType, received: ExpressionType) -> TypecheckError {
    TypecheckError::TypeMismatch { expected, received }
}

fn context() -> DeclarationContext {
    DeclarationContext::empty(FileID(1))
}

fn function(returns: ExpressionType, is_coroutine: bool) -> FuncType {
    FuncType {
        id: FunctionID(FileID(2), 1),
        type_param_count: 0,
        params: vec![],
        returns,
        is_associated: false,
        is_coroutine,
        provenance: None,
    }
}

fn union() -> UnionType {
    UnionType {
        id: TypeID(FileID(2), 2),
        variants: vec![
            ("A".to_string(), None),
            ("B".to_string(), Some(i32_ty())),
            ("C".to_string(), Some(i32_ty())),
            ("D".to_string(), Some(i64_ty())),
            ("E".to_string(), None),
        ],
        is_affine: false,
    }
}

fn case(variants: &[(&str, Option<&str>)]) -> Vec<CaseVariant> {
    variants
        .iter()
        .map(|(name, binding)| CaseVariant {
            name: name.to_string(),
            binding: binding.map(|b| b.to_string()),
        })
        .collect()
}

#[test]
fn return_never_returns_to_where_it_stands() {
    let ctx = context();
    assert_eq!(
        typecheck_return(&ctx, &i64_ty(), Some(&i32_ty())),
        Ok(ExpressionType::Unreachable)
    );
    assert_eq!(
        typecheck_return(&ctx, &i32_ty(), Some(&i64_ty())),
        Err(mismatch(i32_ty(), i64_ty()))
    );
    assert_eq!(
        typecheck_return(&ctx, &ExpressionType::Void, None),
        Ok(ExpressionType::Unreachable)
    );
    assert_eq!(
        typecheck_return(&ctx, &i32_ty(), None),
        Err(mismatch(i32_ty(), ExpressionType::Void))
    );
    assert_eq!(
        typecheck_return(&ctx, &ExpressionType::Void, Some(&i32_ty())),
        Err(mismatch(ExpressionType::Void, i32_ty()))
    );
}

#[test]
fn yield_gives_what_the_coroutine_is_resumed_with() {
    let ctx = context();
    assert_eq!(
        typecheck_yield(&ctx, Some(&i64_ty()), Some(&i32_ty())),
        Ok(i64_ty())
    );
    assert_eq!(typecheck_yield(&ctx, Some(&i64_ty()), None), Ok(i64_ty()));
    assert_eq!(
        typecheck_yield(&ctx, Some(&i32_ty()), Some(&bool_ty())),
        Err(mismatch(i32_ty(), bool_ty()))
    );
    assert_eq!(
        typecheck_yield(&ctx, None, Some(&i32_ty())),
        Err(TypecheckError::CannotYield)
    );
    assert_eq!(
        typecheck_yield(&ctx, None, None),
        Err(TypecheckError::CannotYield)
    );
}

#[test]
fn body_of_a_function() {
    let ctx = context();
    let check = |f: &FuncType, body: ExpressionType| typecheck_function_body(&ctx, f, &body);
    let plain = function(i64_ty(), false);
    assert_eq!(check(&plain, i32_ty()), Ok(()));
    assert_eq!(check(&plain, ExpressionType::Unreachable), Ok(()));
    assert_eq!(check(&plain, bool_ty()), Err(mismatch(i64_ty(), bool_ty())));
    assert_eq!(
        check(&plain, ExpressionType::Void),
        Err(mismatch(i64_ty(), ExpressionType::Void))
    );
    let void = function(ExpressionType::Void, false);
    assert_eq!(check(&void, ExpressionType::Void), Ok(()));
    assert_eq!(check(&void, ExpressionType::Unreachable), Ok(()));
    assert_eq!(
        check(&void, i32_ty()),
        Err(mismatch(ExpressionType::Void, i32_ty()))
    );
}

#[test]
fn body_of_a_coroutine() {
    let ctx = context();
    let check = |f: &FuncType, body: ExpressionType| typecheck_function_body(&ctx, f, &body);
    let generator = ExpressionType::Generator {
        yield_ty: Box::new(i32_ty()),
        param_ty: Box::new(ExpressionType::Void),
    };
    let coroutine = function(generator, true);
    assert_eq!(check(&coroutine, ExpressionType::Void), Ok(()));
    assert_eq!(check(&coroutine, ExpressionType::Unreachable), Ok(()));
    assert_eq!(
        check(&coroutine, i32_ty()),
        Err(mismatch(ExpressionType::Void, i32_ty()))
    );
    let wrong = function(i32_ty(), true);
    assert_eq!(
        check(&wrong, ExpressionType::Void),
        Err(TypecheckError::MustReturnGenerator)
    );
}

#[test]
fn variants_of_a_case_agree_on_what_they_bind() {
    let ctx = context();
    let check = |variants: &[(&str, Option<&str>)]| {
        typecheck_case_bindings(&ctx, &union(), &case(variants))
    };
    assert_eq!(check(&[]), Ok(None));
    assert_eq!(check(&[("A", None)]), Ok(None));
    assert_eq!(check(&[("A", None), ("E", None)]), Ok(None));
    assert_eq!(
        check(&[("B", Some("x"))]),
        Ok(Some(("x".to_string(), i32_ty())))
    );
    assert_eq!(
        check(&[("B", Some("x")), ("C", Some("x"))]),
        Ok(Some(("x".to_string(), i32_ty())))
    );
    // a payload that widens to the first is accepted
    assert_eq!(
        check(&[("D", Some("x")), ("B", Some("x"))]),
        Ok(Some(("x".to_string(), i64_ty())))
    );
    assert_eq!(
        check(&[("B", Some("x")), ("D", Some("x"))]),
        Err(mismatch(i32_ty(), i64_ty()))
    );
    assert_eq!(
        check(&[("B", Some("x")), ("C", Some("y"))]),
        Err(TypecheckError::BindingNameDoesntMatch)
    );
    assert_eq!(
        check(&[("B", Some("x")), ("A", None)]),
        Err(TypecheckError::BindingCountDoesntMatch)
    );
    assert_eq!(
        check(&[("A", None), ("B", Some("x"))]),
        Err(TypecheckError::BindingCountDoesntMatch)
    );
    assert_eq!(
        check(&[("B", None)]),
        Err(TypecheckError::BindingCountDoesntMatch)
    );
    assert_eq!(
        check(&[("Z", None)]),
        Err(TypecheckError::FieldNotPresent)
    );
}

#[test]
fn underscore_discards_the_payload() {
    let ctx = context();
    let check = |variants: &[(&str, Option<&str>)]| {
        typecheck_case_bindings(&ctx, &union(), &case(variants))
    };
    assert_eq!(check(&[("B", Some("_"))]), Ok(None));
    assert_eq!(check(&[("A", None), ("B", Some("_")), ("D", Some("_"))]), Ok(None));
    assert_eq!(
        check(&[("B", Some("x")), ("C", Some("_"))]),
        Err(TypecheckError::BindingCountDoesntMatch)
    );
}

#[test]
fn match_has_the_type_of_its_first_case() {
    // match u { case A => 0, case B(x) => x }
    let ctx = context();
    let check = |bodies: Vec<ExpressionType>| typecheck_match_result(&ctx, &bodies);
    assert_eq!(check(vec![]), Ok(ExpressionType::Void));
    assert_eq!(check(vec![i32_ty(), i32_ty()]), Ok(i32_ty()));
    assert_eq!(check(vec![i64_ty(), i32_ty(), i64_ty()]), Ok(i64_ty()));
    assert_eq!(
        check(vec![i32_ty(), i32_ty(), i64_ty(), bool_ty()]),
        Err(mismatch(i32_ty(), i64_ty()))
    );
    assert_eq!(
        check(vec![i32_ty(), ExpressionType::Unreachable]),
        Ok(i32_ty())
    );
    assert_eq!(
        check(vec![shared(i32_ty()), shared(i32_ty())]),
        Err(TypecheckError::IllegalFirstClassReference)
    );
}

fn string_ty() -> ExpressionType {
    ExpressionType::Collection(CollectionType::String)
}

#[test]
fn match_of_statements_is_void() {
    let ctx = context();
    assert_eq!(
        typecheck_match_result(&ctx, &vec![ExpressionType::Void, ExpressionType::Void]),
        Ok(ExpressionType::Void)
    );
    assert_eq!(
        typecheck_match_result(&ctx, &vec![ExpressionType::Void, i32_ty()]),
        Err(mismatch(ExpressionType::Void, i32_ty()))
    );
}

#[test]
fn logical_operators_take_booleans() {
    let ctx = context();
    assert_eq!(typecheck_logical(&ctx, &bool_ty(), &bool_ty()), Ok(bool_ty()));
    assert_eq!(
        typecheck_logical(&ctx, &bool_ty(), &shared(bool_ty())),
        Ok(bool_ty())
    );
    assert_eq!(
        typecheck_logical(&ctx, &i32_ty(), &string_ty()),
        Err(mismatch(bool_ty(), i32_ty()))
    );
    assert_eq!(
        typecheck_logical(&ctx, &bool_ty(), &i32_ty()),
        Err(mismatch(bool_ty(), i32_ty()))
    );
}

#[test]
fn concatenation_takes_strings() {
    let ctx = context();
    assert_eq!(
        typecheck_concat(&ctx, &string_ty(), &shared(string_ty())),
        Ok(string_ty())
    );
    assert_eq!(
        typecheck_concat(&ctx, &i32_ty(), &bool_ty()),
        Err(mismatch(string_ty(), i32_ty()))
    );
    assert_eq!(
        typecheck_concat(&ctx, &string_ty(), &bool_ty()),
        Err(mismatch(string_ty(), bool_ty()))
    );
}

#[test]
fn conditions_are_booleans() {
    assert_eq!(typecheck_condition(&bool_ty()), Ok(()));
    assert_eq!(typecheck_condition(&shared(shared(bool_ty()))), Ok(()));
    assert_eq!(
        typecheck_condition(&i32_ty()),
        Err(mismatch(bool_ty(), i32_ty()))
    );
    assert_eq!(
        typecheck_condition(&ExpressionType::Unreachable),
        Err(mismatch(bool_ty(), ExpressionType::Unreachable))
    );
    assert_eq!(typecheck_while(&bool_ty()), Ok(ExpressionType::Void));
    assert_eq!(
        typecheck_while(&string_ty()),
        Err(mismatch(bool_ty(), string_ty()))
    );
}

#[test]
fn if_takes_the_branch_that_accepts_the_other() {
    let ctx = context();
    let check = |c: ExpressionType, t: ExpressionType, e: Option<ExpressionType>| {
        typecheck_if(&ctx, &c, &t, e.as_ref())
    };
    assert_eq!(check(bool_ty(), i32_ty(), None), Ok(ExpressionType::Void));
    assert_eq!(check(bool_ty(), i32_ty(), Some(i32_ty())), Ok(i32_ty()));
    assert_eq!(check(bool_ty(), i64_ty(), Some(i32_ty())), Ok(i64_ty()));
    assert_eq!(check(bool_ty(), i32_ty(), Some(i64_ty())), Ok(i64_ty()));
    assert_eq!(
        check(
            bool_ty(),
            ExpressionType::Void,
            Some(ExpressionType::Void)
        ),
        Ok(ExpressionType::Void)
    );
    assert_eq!(
        check(bool_ty(), i32_ty(), Some(ExpressionType::Unreachable)),
        Ok(i32_ty())
    );
    assert_eq!(
        check(bool_ty(), ExpressionType::Unreachable, Some(i32_ty())),
        Ok(i32_ty())
    );
    assert_eq!(
        check(bool_ty(), i32_ty(), Some(string_ty())),
        Err(mismatch(string_ty(), i32_ty()))
    );
    assert_eq!(
        check(i32_ty(), i32_ty(), Some(i32_ty())),
        Err(mismatch(bool_ty(), i32_ty()))
    );
}

#[test]
fn compound_assignment() {
    let ctx = context();
    let x = LvalueShape::Name(i64_ty());
    assert_eq!(
        typecheck_compound_assignment(&ctx, &x, &i64_ty(), &i32_ty()),
        Ok(ExpressionType::Void)
    );
    assert_eq!(
        typecheck_compound_assignment(&ctx, &x, &i64_ty(), &shared(i32_ty())),
        Ok(ExpressionType::Void)
    );
    assert_eq!(
        typecheck_compound_assignment(
            &ctx,
            &LvalueShape::Name(i32_ty()),
            &i32_ty(),
            &i64_ty()
        ),
        Err(vec![mismatch(i32_ty(), i64_ty())])
    );
    assert_eq!(
        typecheck_compound_assignment(
            &ctx,
            &LvalueShape::Name(string_ty()),
            &string_ty(),
            &string_ty()
        ),
        Err(vec![TypecheckError::ArithmeticMismatch])
    );
    assert_eq!(
        typecheck_compound_assignment(&ctx, &LvalueShape::Other, &i64_ty(), &i32_ty()),
        Err(vec![TypecheckError::IllegalAssignmentLHS])
    );
    assert_eq!(
        typecheck_compound_assignment(
            &ctx,
            &LvalueShape::Name(shared(i64_ty())),
            &shared(i64_ty()),
            &i32_ty()
        ),
        Err(vec![
            TypecheckError::IllegalSharedRefMutation,
            TypecheckError::CantAssignToReference,
            mismatch(shared(i64_ty()), i32_ty())
        ])
    );
}

#[test]
fn match_that_leaves_a_variant_out_is_not_exhaustive() {
    // union U { A, B(i32) } ... match u { case B(x) => x }
    let u = UnionType {
        id: TypeID(FileID(2), 2),
        variants: vec![("A".to_string(), None), ("B".to_string(), Some(i32_ty()))],
        is_affine: false,
    };
    let names = |names: &[&str]| -> Vec<String> { names.iter().map(|n| n.to_string()).collect() };
    assert_eq!(
        brick::typecheck::typecheck_match_coverage(&u, &names(&["A", "B"])),
        Ok(())
    );
    assert_eq!(
        brick::typecheck::typecheck_match_coverage(&u, &names(&["B"])),
        Err(TypecheckError::NonExhaustiveCase)
    );
    assert_eq!(
        brick::typecheck::typecheck_match_coverage(&u, &names(&[])),
        Err(TypecheckError::NonExhaustiveCase)
    );
}

#[test]
fn constants_are_written_as_literals() {
    let ctx = context();
    let check = |initializer, hint: ExpressionType, value: ExpressionType| {
        brick::typecheck::typecheck_const(&ctx, initializer, &hint, &value)
    };
    assert_eq!(
        check(brick::typecheck::Initializer::Literal, i64_ty(), i32_ty()),
        Ok(i64_ty())
    );
    assert_eq!(
        check(brick::typecheck::Initializer::ArrayLiteral, string_ty(), string_ty()),
        Ok(string_ty())
    );
    assert_eq!(
        check(brick::typecheck::Initializer::RecordLiteral, i32_ty(), i32_ty()),
        Ok(i32_ty())
    );
    assert_eq!(
        check(brick::typecheck::Initializer::DictLiteral, i32_ty(), i32_ty()),
        Ok(i32_ty())
    );
    assert_eq!(
        check(brick::typecheck::Initializer::Other, i64_ty(), i32_ty()),
        Err(TypecheckError::NonConstantInConst)
    );
    assert_eq!(
        check(brick::typecheck::Initializer::Literal, i32_ty(), i64_ty()),
        Err(mismatch(i32_ty(), i64_ty()))
    );
}

#[test]
fn only_a_name_follows_a_dot() {
    let ctx = context();
    assert_eq!(
        brick::typecheck::typecheck_dot_expression(&ctx, &i32_ty(), None),
        Err(TypecheckError::IllegalDotRHS)
    );
    assert_eq!(
        brick::typecheck::typecheck_dot_expression(&ctx, &i32_ty(), Some(&"f".to_string())),
        Err(TypecheckError::IllegalDotLHS)
    );
}
