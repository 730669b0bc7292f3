use brick::declaration_context::{
    add_intrinsics, assign_ids_to_names, check_properties, fill_in_fn_header,
    fill_in_union_decl, get_id_for_func_name, include_self_param, is_word, name_conflict,
    resolve_import, resolve_type_expr, type_names, CollectionIntrinsic, DeclarationContext,
    FileDeclarations, IntrinsicFunction,
};
use brick::id::{ConstantID, FileID, FunctionID, TypeID};
use brick::parser::{
    AstStatement, AstStatementValue, AstType, AstTypeValue, FunctionDeclarationValue,
    FunctionHeaderValue, InterfaceDeclarationValue, InterfaceFunction, NameAndType, ParsedFile,
    SelfParameter, StructDeclarationValue, UnionDeclarationValue, UnionDeclarationVariant,
};
use brick::provenance::{SourceMarker, SourceRange};
use brick::typecheck::TypecheckError;
use brick::types::{
    CollectionType, Export, ExpressionType, PointerKind, PrimitiveType, TypeDeclaration,
};

fn at(line: u32) -> SourceRange {
    SourceMarker::new("test".to_string(), line, 1).to_range()
}

fn ty(value: AstTypeValue, line: u32) -> AstType {
    AstType {
        value,
        provenance: at(line),
    }
}

fn named(name: &str, line: u32) -> AstType {
    ty(AstTypeValue::Name(name.to_string()), line)
}

fn field(name: &str, t: AstType, line: u32) -> NameAndType {
    NameAndType {
        name: name.to_string(),
        ty: t,
        provenance: at(line),
    }
}

fn header(
    name: &str,
    self_param: Option<SelfParameter>,
    params: Vec<NameAndType>,
    returns: Option<AstType>,
) -> FunctionHeaderValue {
    FunctionHeaderValue {
        name: name.to_string(),
        self_param,
        params,
        returns,
    }
}

fn function(h: FunctionHeaderValue) -> FunctionDeclarationValue {
    FunctionDeclarationValue {
        header: h,
        is_extern: false,
        is_coroutine: false,
    }
}

fn item(value: AstStatementValue, line: u32) -> AstStatement {
    AstStatement {
        value,
        provenance: at(line),
    }
}

fn prim(p: PrimitiveType) -> ExpressionType {
    ExpressionType::Primitive(p)
}

fn shared(t: ExpressionType) -> ExpressionType {
    ExpressionType::Pointer(PointerKind::Shared, Box::new(t))
}

fn unique(t: ExpressionType) -> ExpressionType {
    ExpressionType::Pointer(PointerKind::Unique, Box::new(t))
}

fn import(path: &[&str], line: u32) -> AstStatement {
    item(
        AstStatementValue::Import(path.iter().map(|p| p.to_string()).collect()),
        line,
    )
}

/// struct Point { x: i32, y: i32 } with fn Point.norm(self: shared Point): i64
/// fn origin(): Point
fn lib_file() -> ParsedFile {
    ParsedFile {
        top_level: vec![
            item(
                AstStatementValue::StructDeclaration(StructDeclarationValue {
                    name: "Point".to_string(),
                    fields: vec![
                        field("x", named("i32", 2), 2),
                        field("y", named("i32", 3), 3),
                    ],
                    associated_functions: vec![(
                        function(header(
                            "norm",
                            Some(SelfParameter::Shared),
                            vec![],
                            Some(named("i64", 4)),
                        )),
                        at(4),
                    )],
                    properties: vec![],
                }),
                1,
            ),
            item(
                AstStatementValue::FunctionDeclaration(function(header(
                    "origin",
                    None,
                    vec![],
                    Some(named("Point", 6)),
                ))),
                6,
            ),
            item(
                AstStatementValue::ConstDeclaration {
                    name: "LIMIT".to_string(),
                    type_hint: Some(named("i64", 7)),
                    variable_id: ConstantID(40),
                },
                7,
            ),
        ],
    }
}

/// import self.lib.Point; union Shape { Dot, At(Point) }; interface Named { name(self): string };
/// extern fn log(message: string); struct Handle {} Resource
fn main_file() -> ParsedFile {
    ParsedFile {
        top_level: vec![
            import(&["self", "lib", "Point"], 1),
            item(
                AstStatementValue::UnionDeclaration(UnionDeclarationValue {
                    name: "Shape".to_string(),
                    variants: vec![
                        UnionDeclarationVariant::WithoutValue("Dot".to_string()),
                        UnionDeclarationVariant::WithValue(field("At", named("Point", 3), 3)),
                    ],
                    properties: vec![],
                }),
                2,
            ),
            item(
                AstStatementValue::InterfaceDeclaration(InterfaceDeclarationValue {
                    name: "Named".to_string(),
                    associated_functions: vec![(
                        InterfaceFunction::Required(header(
                            "name",
                            Some(SelfParameter::Owned),
                            vec![],
                            Some(named("string", 5)),
                        )),
                        at(5),
                    )],
                }),
                4,
            ),
            item(
                AstStatementValue::ExternFunctionBinding(header(
                    "log",
                    None,
                    vec![field("message", named("string", 6), 6)],
                    None,
                )),
                6,
            ),
            item(
                AstStatementValue::StructDeclaration(StructDeclarationValue {
                    name: "Handle".to_string(),
                    fields: vec![],
                    associated_functions: vec![],
                    properties: vec!["Resource".to_string()],
                }),
                7,
            ),
            item(AstStatementValue::Expression, 8),
        ],
    }
}

fn build(files: Vec<(&str, ParsedFile)>) -> Result<DeclarationContext, Vec<(TypecheckError, SourceRange)>> {
    let files: Vec<(String, ParsedFile)> = files
        .into_iter()
        .map(|(name, file)| (name.to_string(), file))
        .collect();
    DeclarationContext::new(&files)
}

fn errors_of(files: Vec<(&str, ParsedFile)>) -> Vec<(TypecheckError, u32)> {
    match build(files) {
        Ok(_) => vec![],
        Err(errors) => errors
            .into_iter()
            .map(|(e, range)| (e, range.start_line))
            .collect(),
    }
}

fn one(item: AstStatement) -> Vec<(&'static str, ParsedFile)> {
    vec![(
        "main",
        ParsedFile {
            top_level: vec![item],
        },
    )]
}

#[test]
fn file_ids_and_counters() {
    assert_eq!(FileID::new(7), FileID(7));
    assert_eq!(FileID::new(7).ordinal(), 7);
    let mut file = FileDeclarations::new(FileID(3));
    assert_eq!(file.module_id, TypeID(FileID(3), 1));
    assert_eq!(TypeID(FileID(3), 1).file(), FileID(3));
    assert_eq!(FunctionID(FileID(3), 1).file(), FileID(3));
    assert_eq!(file.new_type_id(), TypeID(FileID(3), 2));
    assert_eq!(file.new_type_id(), TypeID(FileID(3), 3));
    assert_eq!(file.new_func_id(), FunctionID(FileID(3), 1));
    assert_eq!(file.new_func_id(), FunctionID(FileID(3), 2));
    assert_eq!(file.new_type_id(), TypeID(FileID(3), 4));
    assert!(file.imports().is_empty());
    file.type_id_counter = u32::MAX;
    assert_eq!(file.new_type_id(), TypeID(FileID(3), u32::MAX));
    assert_eq!(file.new_type_id(), TypeID(FileID(3), 0));
}

#[test]
fn words() {
    assert!(is_word(&"self".to_string(), "self"));
    assert!(!is_word(&"selfish".to_string(), "self"));
    assert!(!is_word(&"sel".to_string(), "self"));
    assert!(!is_word(&"".to_string(), "self"));
    assert!(is_word(&"".to_string(), ""));
}

#[test]
fn written_types_resolve() {
    let names = vec![("Point".to_string(), TypeID(FileID(2), 5))];
    let resolve = |t: AstTypeValue| {
        resolve_type_expr(&names, &ty(t, 9)).map_err(|(e, range)| (e, range.start_line))
    };
    let inner = |name: &str| Box::new(named(name, 3));
    for (name, expected) in [
        ("bool", prim(PrimitiveType::Bool)),
        ("i32", prim(PrimitiveType::Int32)),
        ("f32", prim(PrimitiveType::Float32)),
        ("i64", prim(PrimitiveType::Int64)),
        ("f64", prim(PrimitiveType::Float64)),
        ("char", prim(PrimitiveType::Char)),
        ("size", prim(PrimitiveType::PointerSize)),
        ("string", ExpressionType::Collection(CollectionType::String)),
        ("Point", ExpressionType::InstanceOf(TypeID(FileID(2), 5))),
    ] {
        assert_eq!(resolve(AstTypeValue::Name(name.to_string())), Ok(expected));
    }
    assert_eq!(resolve(AstTypeValue::Void), Ok(ExpressionType::Void));
    assert_eq!(
        resolve(AstTypeValue::Unique(inner("i32"))),
        Ok(unique(prim(PrimitiveType::Int32)))
    );
    assert_eq!(
        resolve(AstTypeValue::Shared(inner("Point"))),
        Ok(shared(ExpressionType::InstanceOf(TypeID(FileID(2), 5))))
    );
    assert_eq!(
        resolve(AstTypeValue::Array(inner("i32"))),
        Ok(ExpressionType::Collection(CollectionType::Array(Box::new(
            prim(PrimitiveType::Int32)
        ))))
    );
    assert_eq!(
        resolve(AstTypeValue::Dict(inner("string"), inner("i64"))),
        Ok(ExpressionType::Collection(CollectionType::Dict(
            Box::new(ExpressionType::Collection(CollectionType::String)),
            Box::new(prim(PrimitiveType::Int64))
        )))
    );
    assert_eq!(
        resolve(AstTypeValue::Rc(inner("i32"))),
        Ok(ExpressionType::Collection(CollectionType::ReferenceCounter(
            Box::new(prim(PrimitiveType::Int32))
        )))
    );
    assert_eq!(
        resolve(AstTypeValue::Cell(inner("i32"))),
        Ok(ExpressionType::Collection(CollectionType::Cell(Box::new(
            prim(PrimitiveType::Int32)
        ))))
    );
    assert_eq!(
        resolve(AstTypeValue::Nullable(inner("i64"))),
        Ok(ExpressionType::Nullable(Box::new(prim(
            PrimitiveType::Int64
        ))))
    );
    assert_eq!(
        resolve(AstTypeValue::Generator {
            yield_ty: inner("i32"),
            param_ty: Box::new(ty(AstTypeValue::Void, 3)),
        }),
        Ok(ExpressionType::Generator {
            yield_ty: Box::new(prim(PrimitiveType::Int32)),
            param_ty: Box::new(ExpressionType::Void),
        })
    );
    // the first name that stands for nothing, at its own place
    assert_eq!(
        resolve(AstTypeValue::Name("Nope".to_string())),
        Err((TypecheckError::NameNotFound, 9))
    );
    assert_eq!(
        resolve(AstTypeValue::Dict(inner("Nope"), inner("Neither"))),
        Err((TypecheckError::NameNotFound, 3))
    );
}

#[test]
fn self_parameter() {
    let s = ExpressionType::InstanceOf(TypeID(FileID(2), 5));
    assert_eq!(include_self_param(None, Some(&s)), Ok(None));
    assert_eq!(include_self_param(None, None), Ok(None));
    assert_eq!(
        include_self_param(Some(SelfParameter::Unique), Some(&s)),
        Ok(Some(unique(s.duplicate())))
    );
    assert_eq!(
        include_self_param(Some(SelfParameter::Shared), Some(&s)),
        Ok(Some(shared(s.duplicate())))
    );
    assert_eq!(
        include_self_param(Some(SelfParameter::Owned), Some(&s)),
        Ok(Some(s.duplicate()))
    );
    assert_eq!(
        include_self_param(Some(SelfParameter::Owned), None),
        Err(TypecheckError::SelfParameterInNonAssociatedFunc)
    );
}

#[test]
fn function_header() {
    let names = vec![("Point".to_string(), TypeID(FileID(2), 5))];
    let s = ExpressionType::InstanceOf(TypeID(FileID(2), 5));
    let h = header(
        "scale",
        Some(SelfParameter::Unique),
        vec![
            field("by", named("i32", 1), 1),
            field("around", named("Point", 1), 1),
        ],
        None,
    );
    let place = at(1);
    let id = FunctionID(FileID(2), 9);
    let f = fill_in_fn_header(&names, id, &h, true, false, &place, Some(&s)).unwrap();
    assert_eq!(f.id, id);
    assert_eq!(f.type_param_count, 0);
    assert_eq!(
        f.params,
        vec![unique(s.duplicate()), prim(PrimitiveType::Int32), s.duplicate()]
    );
    assert_eq!(f.returns, ExpressionType::Void);
    assert!(f.is_associated);
    assert!(!f.is_coroutine);
    let outside = fill_in_fn_header(&names, id, &h, false, false, &place, None);
    assert_eq!(
        outside.map_err(|(e, r)| (e, r.start_line)),
        Err((TypecheckError::SelfParameterInNonAssociatedFunc, 1))
    );
}

#[test]
fn properties() {
    assert_eq!(check_properties(&vec![]), Some(false));
    assert_eq!(check_properties(&vec!["Resource".to_string()]), Some(true));
    assert_eq!(
        check_properties(&vec!["Resource".to_string(), "Other".to_string()]),
        None
    );
}

#[test]
fn union_declaration() {
    let names = vec![
        ("Shape".to_string(), TypeID(FileID(2), 7)),
        ("Point".to_string(), TypeID(FileID(2), 5)),
    ];
    let decl = UnionDeclarationValue {
        name: "Shape".to_string(),
        variants: vec![
            UnionDeclarationVariant::WithoutValue("Dot".to_string()),
            UnionDeclarationVariant::WithValue(field("At", named("Point", 3), 3)),
        ],
        properties: vec!["Resource".to_string()],
    };
    let place = at(2);
    match fill_in_union_decl(&names, &decl, &place) {
        Ok(TypeDeclaration::Union(un)) => {
            assert_eq!(un.id, TypeID(FileID(2), 7));
            assert!(un.is_affine);
            assert_eq!(
                un.variants,
                vec![
                    ("Dot".to_string(), None),
                    (
                        "At".to_string(),
                        Some(ExpressionType::InstanceOf(TypeID(FileID(2), 5)))
                    ),
                ]
            );
        }
        other => panic!("{:?}", other),
    }
    assert_eq!(decl.variants[1].name(), "At");
}

#[test]
fn first_pass_assigns_identifiers_in_order() {
    let file = main_file();
    let (module, exports, conflicts) = assign_ids_to_names(FileID(5), &file);
    let f = FileID(5);
    assert_eq!(module.id, f);
    assert_eq!(module.module_id, TypeID(f, 1));
    assert_eq!(module.type_id_counter, 5);
    assert_eq!(module.func_id_counter, 2);
    let export = |ty| Export { constant: None, ty };
    assert_eq!(
        exports,
        vec![
            (
                "Shape".to_string(),
                export(ExpressionType::ReferenceToType(TypeID(f, 2)))
            ),
            (
                "Named".to_string(),
                export(ExpressionType::ReferenceToType(TypeID(f, 3)))
            ),
            (
                "log".to_string(),
                export(ExpressionType::ReferenceToFunction(FunctionID(f, 1)))
            ),
            (
                "Handle".to_string(),
                export(ExpressionType::ReferenceToType(TypeID(f, 4)))
            ),
        ]
    );
    assert_eq!(conflicts, vec![None; 6]);
    assert_eq!(
        get_id_for_func_name(&exports, &"log".to_string()),
        Some(FunctionID(f, 1))
    );
    assert_eq!(get_id_for_func_name(&exports, &"Shape".to_string()), None);
    assert_eq!(get_id_for_func_name(&exports, &"nope".to_string()), None);
    let names = type_names(&vec![], &exports);
    assert_eq!(
        names,
        vec![
            ("Shape".to_string(), TypeID(f, 2)),
            ("Named".to_string(), TypeID(f, 3)),
            ("Handle".to_string(), TypeID(f, 4)),
        ]
    );
}

#[test]
fn name_conflicts_point_at_the_nearest_namesake() {
    let decl = |name: &str, line| {
        item(
            AstStatementValue::UnionDeclaration(UnionDeclarationValue {
                name: name.to_string(),
                variants: vec![],
                properties: vec![],
            }),
            line,
        )
    };
    let items = vec![
        decl("A", 1),
        decl("B", 2),
        import(&["self", "lib", "A"], 3),
        item(AstStatementValue::Expression, 4),
        decl("A", 5),
        item(
            AstStatementValue::ConstDeclaration {
                name: "B".to_string(),
                type_hint: None,
                variable_id: ConstantID(1),
            },
            6,
        ),
    ];
    assert_eq!(name_conflict(&items, 0), None);
    assert_eq!(name_conflict(&items, 1), None);
    assert_eq!(name_conflict(&items, 2), Some(0));
    assert_eq!(name_conflict(&items, 3), None);
    assert_eq!(name_conflict(&items, 4), Some(2));
    assert_eq!(name_conflict(&items, 5), Some(1));
    let file = ParsedFile { top_level: items };
    let (_, _, conflicts) = assign_ids_to_names(FileID(2), &file);
    assert_eq!(conflicts, vec![None, None, Some(0), None, Some(2), Some(1)]);
    let conflict = |first: u32, name: &str| TypecheckError::DeclarationNameConflict {
        first: at(first),
        name: name.to_string(),
    };
    // the conflicts come first, then what the second pass finds
    assert_eq!(
        errors_of(vec![("lib", lib_file()), ("main", file)]),
        vec![
            (conflict(1, "A"), 3),
            (conflict(3, "A"), 5),
            (conflict(2, "B"), 6),
            (TypecheckError::ExportNotFound, 3),
            (TypecheckError::TopLevelConstantMustHaveType, 6),
        ]
    );
}

#[test]
fn errors_of_other_files_are_reported_beside_a_name_conflict() {
    let twice = ParsedFile {
        top_level: vec![
            item(
                AstStatementValue::UnionDeclaration(UnionDeclarationValue {
                    name: "A".to_string(),
                    variants: vec![],
                    properties: vec![],
                }),
                1,
            ),
            item(
                AstStatementValue::UnionDeclaration(UnionDeclarationValue {
                    name: "A".to_string(),
                    variants: vec![],
                    properties: vec![],
                }),
                2,
            ),
        ],
    };
    let other = ParsedFile {
        top_level: vec![import(&["self", "nowhere"], 7)],
    };
    assert_eq!(
        errors_of(vec![("a", twice), ("b", other)]),
        vec![
            (
                TypecheckError::DeclarationNameConflict {
                    first: at(1),
                    name: "A".to_string()
                },
                2
            ),
            (TypecheckError::FileNotFound, 7),
        ]
    );
}

#[test]
fn no_files_give_the_intrinsics_alone() {
    let ctx = build(vec![]).unwrap();
    assert!(ctx.files.is_empty());
    assert!(ctx.id_to_decl.is_empty());
    assert_eq!(ctx.id_to_func.len(), 7);
    let ids: Vec<FunctionID> = ctx.id_to_func.iter().map(|f| f.id).collect();
    let expected: Vec<FunctionID> = (1..=7).map(|n| FunctionID(FileID(1), n)).collect();
    assert_eq!(ids, expected);
    assert!(ctx.id_to_func.iter().all(|f| f.is_associated));
}

#[test]
fn nothing_is_drawn_for_a_declaration_that_fails() {
    // the second method of the struct names a type that is not there
    let broken = item(
        AstStatementValue::StructDeclaration(StructDeclarationValue {
            name: "S".to_string(),
            fields: vec![],
            associated_functions: vec![
                (
                    function(header("a", Some(SelfParameter::Shared), vec![], None)),
                    at(2),
                ),
                (
                    function(header(
                        "b",
                        Some(SelfParameter::Shared),
                        vec![],
                        Some(named("Nope", 3)),
                    )),
                    at(3),
                ),
            ],
            properties: vec![],
        }),
        1,
    );
    let names = vec![("S".to_string(), TypeID(FileID(2), 2))];
    let mut module = FileDeclarations::new(FileID(2));
    let mut funcs = vec![];
    let decl = match &broken.value {
        AstStatementValue::StructDeclaration(d) => d,
        _ => unreachable!(),
    };
    let r = brick::declaration_context::fill_in_struct_info(
        &names,
        &mut module,
        &mut funcs,
        decl,
        &broken.provenance,
    );
    assert_eq!(
        r.map_err(|(e, place)| (e, place.start_line)),
        Err((TypecheckError::NameNotFound, 3))
    );
    assert!(funcs.is_empty());
    assert_eq!(module.func_id_counter, 1);
}

#[test]
fn two_files_are_declared() {
    let ctx = build(vec![("lib", lib_file()), ("main", main_file())]).unwrap();
    let lib = FileID(2);
    let main = FileID(3);
    assert_eq!(ctx.files.len(), 2);
    assert_eq!(ctx.files[0].0, "lib");
    assert_eq!(ctx.files[0].1.module_id, TypeID(lib, 1));
    assert_eq!(ctx.files[1].0, "main");
    assert_eq!(ctx.files[1].1.id, main);
    assert_eq!(
        ctx.files[1].1.imports,
        vec![(
            "Point".to_string(),
            Export {
                constant: None,
                ty: ExpressionType::ReferenceToType(TypeID(lib, 2))
            }
        )]
    );
    let point = ExpressionType::InstanceOf(TypeID(lib, 2));
    match ctx.decl(TypeID(lib, 2)) {
        Some(TypeDeclaration::Struct(st)) => {
            assert_eq!(
                st.fields,
                vec![
                    ("x".to_string(), prim(PrimitiveType::Int32)),
                    ("y".to_string(), prim(PrimitiveType::Int32)),
                ]
            );
            // `origin` drew the first function identifier of the file
            assert_eq!(
                st.associated_functions,
                vec![("norm".to_string(), FunctionID(lib, 2))]
            );
            assert!(!st.is_affine);
        }
        other => panic!("{:?}", other),
    }
    let norm = ctx.func(FunctionID(lib, 2)).unwrap();
    assert_eq!(norm.params, vec![shared(point.duplicate())]);
    assert_eq!(norm.returns, prim(PrimitiveType::Int64));
    assert!(norm.is_associated);
    let origin = ctx.func(FunctionID(lib, 1)).unwrap();
    assert!(origin.params.is_empty());
    assert_eq!(origin.returns, point.duplicate());
    assert!(!origin.is_associated);
    match ctx.decl(TypeID(lib, 1)) {
        Some(TypeDeclaration::Module(module)) => {
            let names: Vec<&str> = module.exports.iter().map(|e| e.0.as_str()).collect();
            assert_eq!(names, vec!["Point", "origin", "LIMIT"]);
            assert_eq!(
                module.exports[2].1,
                Export {
                    constant: Some(ConstantID(40)),
                    ty: prim(PrimitiveType::Int64)
                }
            );
        }
        other => panic!("{:?}", other),
    }
    match ctx.decl(TypeID(main, 2)) {
        Some(TypeDeclaration::Union(un)) => {
            assert_eq!(
                un.variants,
                vec![
                    ("Dot".to_string(), None),
                    ("At".to_string(), Some(point.duplicate())),
                ]
            );
        }
        other => panic!("{:?}", other),
    }
    match ctx.decl(TypeID(main, 3)) {
        Some(TypeDeclaration::Interface(it)) => {
            assert_eq!(
                it.associated_functions,
                vec![("name".to_string(), FunctionID(main, 2))]
            );
        }
        other => panic!("{:?}", other),
    }
    let name = ctx.func(FunctionID(main, 2)).unwrap();
    assert_eq!(
        name.params,
        vec![ExpressionType::InstanceOf(TypeID(main, 3))]
    );
    assert_eq!(
        name.returns,
        ExpressionType::Collection(CollectionType::String)
    );
    let log = ctx.func(FunctionID(main, 1)).unwrap();
    assert_eq!(
        log.params,
        vec![ExpressionType::Collection(CollectionType::String)]
    );
    assert_eq!(log.returns, ExpressionType::Void);
    match ctx.decl(TypeID(main, 4)) {
        Some(TypeDeclaration::Struct(st)) => assert!(st.is_affine),
        other => panic!("{:?}", other),
    }
    assert!(ctx.decl(TypeID(main, 9)).is_none());
    assert!(ctx.func(FunctionID(main, 9)).is_none());
    assert_eq!(ctx.decl_position(TypeID(lib, 1)), Some(0));
    assert_eq!(ctx.decl_position(TypeID(main, 1)), Some(1));
}

#[test]
fn mutually_recursive_types_are_declared() {
    let decl = |name: &str, other: &str, line| {
        item(
            AstStatementValue::StructDeclaration(StructDeclarationValue {
                name: name.to_string(),
                fields: vec![field("other", named(other, line), line)],
                associated_functions: vec![],
                properties: vec![],
            }),
            line,
        )
    };
    let file = ParsedFile {
        top_level: vec![decl("A", "B", 1), decl("B", "A", 2)],
    };
    let ctx = build(vec![("main", file)]).unwrap();
    let f = FileID(2);
    match ctx.decl(TypeID(f, 2)) {
        Some(TypeDeclaration::Struct(st)) => assert_eq!(
            st.fields,
            vec![(
                "other".to_string(),
                ExpressionType::InstanceOf(TypeID(f, 3))
            )]
        ),
        other => panic!("{:?}", other),
    }
    match ctx.decl(TypeID(f, 3)) {
        Some(TypeDeclaration::Struct(st)) => assert_eq!(
            st.fields,
            vec![(
                "other".to_string(),
                ExpressionType::InstanceOf(TypeID(f, 2))
            )]
        ),
        other => panic!("{:?}", other),
    }
}

#[test]
fn intrinsics_are_registered() {
    let ctx = build(vec![]).unwrap();
    let f = |n| FunctionID(FileID(1), n);
    let entry = |name: &str, intrinsic_fn, n, ptr_ty| {
        (
            name.to_string(),
            CollectionIntrinsic {
                intrinsic_fn,
                fn_id: f(n),
                ptr_ty,
            },
        )
    };
    assert_eq!(
        ctx.array_intrinsics,
        vec![
            entry("len", IntrinsicFunction::ArrayLength, 1, PointerKind::Shared),
            entry("push", IntrinsicFunction::ArrayPush, 2, PointerKind::Unique),
        ]
    );
    assert_eq!(
        ctx.dict_intrinsics,
        vec![
            entry(
                "contains_key",
                IntrinsicFunction::DictionaryContains,
                3,
                PointerKind::Shared
            ),
            entry(
                "insert",
                IntrinsicFunction::DictionaryInsert,
                4,
                PointerKind::Unique
            ),
        ]
    );
    assert_eq!(
        ctx.rc_intrinsics,
        vec![entry("clone", IntrinsicFunction::RcClone, 5, PointerKind::Shared)]
    );
    assert_eq!(
        ctx.cell_intrinsics,
        vec![
            entry("get", IntrinsicFunction::CellGet, 6, PointerKind::Shared),
            entry("set", IntrinsicFunction::CellSet, 7, PointerKind::Shared),
        ]
    );
    assert_eq!(ctx.intrinsic_to_id.len(), 7);
    assert_eq!(ctx.intrinsic_to_id[1], (IntrinsicFunction::ArrayPush, f(2)));
    let t = |i| ExpressionType::TypeParameterReference(i);
    let array = |x| ExpressionType::Collection(CollectionType::Array(Box::new(x)));
    let dict =
        |k, v| ExpressionType::Collection(CollectionType::Dict(Box::new(k), Box::new(v)));
    let len = ctx.func(f(1)).unwrap();
    assert_eq!(len.params, vec![shared(t(0))]);
    assert_eq!(len.returns, prim(PrimitiveType::PointerSize));
    assert_eq!(len.type_param_count, 1);
    assert!(len.is_associated);
    let push = ctx.func(f(2)).unwrap();
    assert_eq!(push.params, vec![unique(array(t(0))), t(0)]);
    assert_eq!(push.returns, ExpressionType::Void);
    let contains = ctx.func(f(3)).unwrap();
    assert_eq!(
        contains.params,
        vec![shared(dict(t(0), t(1))), shared(t(0))]
    );
    assert_eq!(contains.returns, prim(PrimitiveType::Bool));
    assert_eq!(contains.type_param_count, 2);
    let insert = ctx.func(f(4)).unwrap();
    assert_eq!(insert.params, vec![unique(dict(t(0), t(1))), t(0), t(1)]);
    let clone = ctx.func(f(5)).unwrap();
    let rc = ExpressionType::Collection(CollectionType::ReferenceCounter(Box::new(t(0))));
    assert_eq!(clone.params, vec![shared(rc.duplicate())]);
    assert_eq!(clone.returns, rc);
    let cell = ExpressionType::Collection(CollectionType::Cell(Box::new(t(0))));
    let get = ctx.func(f(6)).unwrap();
    assert_eq!(get.params, vec![shared(cell.duplicate()), unique(t(0))]);
    let set = ctx.func(f(7)).unwrap();
    assert_eq!(set.params, vec![shared(cell), t(0)]);
    assert_eq!(set.returns, ExpressionType::Void);
    // registering again draws new identifiers and makes the tables anew
    let mut again = ctx;
    add_intrinsics(&mut again);
    assert_eq!(again.array_intrinsics.len(), 2);
    assert_eq!(again.array_intrinsics[0].1.fn_id, f(8));
    assert_eq!(again.id_to_func.len(), 14);
}

#[test]
fn imports() {
    let ctx = build(vec![("lib", lib_file()), ("main", main_file())]).unwrap();
    let path = |parts: &[&str]| -> Vec<String> { parts.iter().map(|p| p.to_string()).collect() };
    let lib = FileID(2);
    let brought = |name: &str, constant, ty| Ok((name.to_string(), Export { constant, ty }));
    assert_eq!(
        resolve_import(&ctx, &path(&["self", "lib"])),
        brought("lib", None, ExpressionType::ReferenceToType(TypeID(lib, 1)))
    );
    assert_eq!(
        resolve_import(&ctx, &path(&["self", "lib", "Point"])),
        brought(
            "Point",
            None,
            ExpressionType::ReferenceToType(TypeID(lib, 2))
        )
    );
    assert_eq!(
        resolve_import(&ctx, &path(&["self", "lib", "origin"])),
        brought(
            "origin",
            None,
            ExpressionType::ReferenceToFunction(FunctionID(lib, 1))
        )
    );
    assert_eq!(
        resolve_import(&ctx, &path(&["self", "lib", "LIMIT"])),
        brought("LIMIT", Some(ConstantID(40)), prim(PrimitiveType::Int64))
    );
    assert_eq!(
        resolve_import(&ctx, &path(&[])),
        Err(TypecheckError::IllegalImport)
    );
    assert_eq!(
        resolve_import(&ctx, &path(&["self"])),
        Err(TypecheckError::IllegalImport)
    );
    assert_eq!(
        resolve_import(&ctx, &path(&["other", "lib"])),
        Err(TypecheckError::IllegalImport)
    );
    assert_eq!(
        resolve_import(&ctx, &path(&["self", "nope"])),
        Err(TypecheckError::FileNotFound)
    );
    assert_eq!(
        resolve_import(&ctx, &path(&["self", "lib", "Point", "x"])),
        Err(TypecheckError::ImportPathMustBeModule)
    );
    assert_eq!(
        resolve_import(&ctx, &path(&["self", "lib", "origin", "x"])),
        Err(TypecheckError::ImportPathMustBeModule)
    );
    assert_eq!(
        resolve_import(&ctx, &path(&["self", "lib", "nope"])),
        Err(TypecheckError::ExportNotFound)
    );
}

#[test]
fn import_errors_are_reported_where_they_stand() {
    assert_eq!(
        errors_of(vec![
            ("lib", lib_file()),
            (
                "main",
                ParsedFile {
                    top_level: vec![
                        import(&["self", "nope"], 1),
                        import(&["self", "lib", "Point", "x"], 2),
                        import(&["self"], 3),
                    ]
                }
            )
        ]),
        vec![
            (TypecheckError::FileNotFound, 1),
            (TypecheckError::ImportPathMustBeModule, 2),
            (TypecheckError::IllegalImport, 3),
        ]
    );
}

#[test]
fn no_references_inside_data() {
    let pointer = ty(AstTypeValue::Shared(Box::new(named("i32", 2))), 2);
    assert_eq!(
        errors_of(one(item(
            AstStatementValue::StructDeclaration(StructDeclarationValue {
                name: "S".to_string(),
                fields: vec![field("x", named("i32", 1), 1), field("p", pointer, 2)],
                associated_functions: vec![],
                properties: vec![],
            }),
            1
        ))),
        vec![(TypecheckError::IllegalReferenceInsideDataType, 2)]
    );
    let pointer = ty(AstTypeValue::Unique(Box::new(named("i32", 3))), 3);
    assert_eq!(
        errors_of(one(item(
            AstStatementValue::UnionDeclaration(UnionDeclarationValue {
                name: "U".to_string(),
                variants: vec![UnionDeclarationVariant::WithValue(field("P", pointer, 3))],
                properties: vec![],
            }),
            1
        ))),
        vec![(TypecheckError::IllegalReferenceInsideDataType, 3)]
    );
}

#[test]
fn declaration_errors() {
    assert_eq!(
        errors_of(one(item(
            AstStatementValue::StructDeclaration(StructDeclarationValue {
                name: "S".to_string(),
                fields: vec![],
                associated_functions: vec![],
                properties: vec!["Shiny".to_string()],
            }),
            4
        ))),
        vec![(TypecheckError::UnknownProperty, 4)]
    );
    assert_eq!(
        errors_of(one(item(
            AstStatementValue::UnionDeclaration(UnionDeclarationValue {
                name: "U".to_string(),
                variants: vec![],
                properties: vec!["Resource".to_string(), "Shiny".to_string()],
            }),
            5
        ))),
        vec![(TypecheckError::UnknownProperty, 5)]
    );
    assert_eq!(
        errors_of(one(item(
            AstStatementValue::ConstDeclaration {
                name: "C".to_string(),
                type_hint: None,
                variable_id: ConstantID(1),
            },
            6
        ))),
        vec![(TypecheckError::TopLevelConstantMustHaveType, 6)]
    );
    assert_eq!(
        errors_of(one(item(
            AstStatementValue::ConstDeclaration {
                name: "C".to_string(),
                type_hint: Some(named("Nope", 7)),
                variable_id: ConstantID(1),
            },
            6
        ))),
        vec![(TypecheckError::NameNotFound, 7)]
    );
    assert_eq!(
        errors_of(one(item(
            AstStatementValue::FunctionDeclaration(function(header(
                "f",
                Some(SelfParameter::Shared),
                vec![],
                None
            ))),
            8
        ))),
        vec![(TypecheckError::SelfParameterInNonAssociatedFunc, 8)]
    );
    assert_eq!(
        errors_of(one(item(
            AstStatementValue::FunctionDeclaration(function(header(
                "f",
                None,
                vec![field("x", named("Nope", 9), 9)],
                None
            ))),
            8
        ))),
        vec![(TypecheckError::NameNotFound, 9)]
    );
}

#[test]
fn errors_of_all_files_are_collected() {
    let bad = |line| {
        ParsedFile {
            top_level: vec![
                item(
                    AstStatementValue::ConstDeclaration {
                        name: "C".to_string(),
                        type_hint: None,
                        variable_id: ConstantID(1),
                    },
                    line,
                ),
                item(
                    AstStatementValue::FunctionDeclaration(function(header(
                        "f",
                        None,
                        vec![],
                        Some(named("Nope", line + 1)),
                    ))),
                    line + 1,
                ),
            ],
        }
    };
    assert_eq!(
        errors_of(vec![("a", bad(10)), ("b", bad(20))]),
        vec![
            (TypecheckError::NameNotFound, 11),
            (TypecheckError::TopLevelConstantMustHaveType, 10),
            (TypecheckError::NameNotFound, 21),
            (TypecheckError::TopLevelConstantMustHaveType, 20),
        ]
    );
}

#[test]
fn declared_names() {
    let file = main_file();
    let names: Vec<Option<&str>> = file
        .top_level
        .iter()
        .map(|i| i.value.declared_name().map(|n| n.as_str()))
        .collect();
    assert_eq!(
        names,
        vec![
            Some("Point"),
            Some("Shape"),
            Some("Named"),
            Some("log"),
            Some("Handle"),
            None
        ]
    );
    assert_eq!(
        AstStatementValue::Import(vec![]).declared_name(),
        None
    );
}

#[test]
fn externs_are_recorded() {
    let mut exported = function(header("entry", None, vec![], None));
    exported.is_extern = true;
    let file = ParsedFile {
        top_level: vec![
            item(
                AstStatementValue::FunctionDeclaration(function(header(
                    "helper",
                    None,
                    vec![],
                    None,
                ))),
                1,
            ),
            item(AstStatementValue::FunctionDeclaration(exported), 2),
            item(
                AstStatementValue::ExternFunctionBinding(header(
                    "log",
                    None,
                    vec![field("message", named("string", 3), 3)],
                    None,
                )),
                3,
            ),
        ],
    };
    let ctx = build(vec![("lib", lib_file()), ("main", file)]).unwrap();
    let main = FileID(3);
    assert_eq!(
        ctx.extern_function_bindings,
        vec![("log".to_string(), FunctionID(main, 3))]
    );
    assert_eq!(
        ctx.extern_function_exports,
        vec![("entry".to_string(), FunctionID(main, 2))]
    );
}

#[test]
fn filled_types_are_declared_in_the_order_of_their_slots() {
    let union = |n: u32| {
        TypeDeclaration::Union(brick::types::UnionType {
            id: TypeID(FileID(2), n),
            variants: vec![],
            is_affine: false,
        })
    };
    let mut table = vec![union(1)];
    brick::declaration_context::declare_all(
        &mut table,
        vec![None, Some(union(5)), None, Some(union(3)), Some(union(4)), None],
    );
    assert_eq!(table, vec![union(1), union(5), union(3), union(4)]);
    brick::declaration_context::declare_all(&mut table, vec![None, None]);
    assert_eq!(table.len(), 4);
    brick::declaration_context::declare_all(&mut table, vec![]);
    assert_eq!(table.len(), 4);
    let mut empty: Vec<TypeDeclaration> = vec![];
    brick::declaration_context::declare_all(&mut empty, vec![Some(union(9))]);
    assert_eq!(empty, vec![union(9)]);
}
