//! The declarations of one compilation: every declared type and function
//! under its identifier, the imports of each file, and the operations that
//! the compiler provides on collections.

use vstd::prelude::*;
use vstd::string::{StrSliceExecFns, StringExecFns};
use crate::id::{ConstantID, FileID, FunctionID, TypeID};
use crate::parser::{
    AstStatement, AstStatementValue, AstType, AstTypeValue, FunctionDeclarationValue, FunctionHeaderValue,
    InterfaceDeclarationValue, InterfaceFunction, NameAndType, ParsedFile, SelfParameter,
    StructDeclarationValue, UnionDeclarationValue, UnionDeclarationVariant,
};
use crate::provenance::SourceRange;
use crate::typecheck::TypecheckError;
use crate::types::{
    find_name, name_index, CollectionType, Export, ExpressionType, FuncType, InterfaceType,
    ModuleType, PointerKind, PrimitiveType, StructType, TypeDeclaration, UnionType,
};

verus! {

/// The counter that follows `c`; it starts over after the largest value.
pub open spec fn next_counter(c: u32) -> u32 {
    if c == u32::MAX {
        0
    } else {
        (c + 1) as u32
    }
}

/// What one file declares: its module, the counters from which its type and
/// function identifiers are drawn, and what it imports.
#[derive(Debug)]
pub struct FileDeclarations {
    pub id: FileID,
    pub module_id: TypeID,
    pub type_id_counter: u32,
    pub func_id_counter: u32,
    pub imports: Vec<(String, Export)>,
}

impl FileDeclarations {
    /// The declarations of a file in which nothing is declared yet. The
    /// module itself is the file's first type.
    pub fn new(id: FileID) -> (f: FileDeclarations)
        ensures
            f.id == id,
            f.module_id == TypeID(id, 1),
            f.type_id_counter == 2,
            f.func_id_counter == 1,
            f.imports@.len() == 0,
    {
        FileDeclarations {
            id,
            module_id: TypeID(id, 1),
            type_id_counter: 2,
            func_id_counter: 1,
            imports: Vec::new(),
        }
    }

    /// Draws the next type identifier of the file.
    pub fn new_type_id(&mut self) -> (t: TypeID)
        ensures
            t == TypeID(old(self).id, old(self).type_id_counter),
            final(self).type_id_counter == next_counter(old(self).type_id_counter),
            final(self).id == old(self).id,
            final(self).module_id == old(self).module_id,
            final(self).func_id_counter == old(self).func_id_counter,
            final(self).imports == old(self).imports,
    {
        let n: u32 = self.type_id_counter;
        self.type_id_counter = if n == u32::MAX {
            0
        } else {
            n + 1
        };
        TypeID(self.id, n)
    }

    /// Draws the next function identifier of the file.
    pub fn new_func_id(&mut self) -> (f: FunctionID)
        ensures
            f == FunctionID(old(self).id, old(self).func_id_counter),
            final(self).func_id_counter == next_counter(old(self).func_id_counter),
            final(self).id == old(self).id,
            final(self).module_id == old(self).module_id,
            final(self).type_id_counter == old(self).type_id_counter,
            final(self).imports == old(self).imports,
    {
        let n: u32 = self.func_id_counter;
        self.func_id_counter = if n == u32::MAX {
            0
        } else {
            n + 1
        };
        FunctionID(self.id, n)
    }

    /// What the file imports, by name.
    pub fn imports(&self) -> (r: &Vec<(String, Export)>)
        ensures
            *r == self.imports,
    {
        &self.imports
    }
}

/// The operations that the compiler provides on collections.
#[derive(Debug, Clone, Copy, PartialEq, Eq, Hash, Structural)]
pub enum IntrinsicFunction {
    ArrayLength,
    ArrayPush,
    ArrayFree,
    DictionaryInsert,
    DictionaryContains,
    RcClone,
    RcDecrement,
    RcFree,
    CellGet,
    CellSet,
}

/// One operation of a collection as a method: which operation it is, the
/// function that stands for it, and the kind of pointer its `self` takes.
#[derive(Debug, Clone, Copy, PartialEq, Eq, Structural)]
pub struct CollectionIntrinsic {
    pub intrinsic_fn: IntrinsicFunction,
    pub fn_id: FunctionID,
    pub ptr_ty: PointerKind,
}

pub struct DeclarationContext {
    pub intrinsic_module: FileDeclarations,
    pub files: Vec<(String, FileDeclarations)>,
    /// Every declared type; a type is found by its identifier.
    pub id_to_decl: Vec<TypeDeclaration>,
    /// Every function signature; a function is found by its identifier.
    pub id_to_func: Vec<FuncType>,
    pub intrinsic_to_id: Vec<(IntrinsicFunction, FunctionID)>,
    pub array_intrinsics: Vec<(String, CollectionIntrinsic)>,
    pub dict_intrinsics: Vec<(String, CollectionIntrinsic)>,
    pub rc_intrinsics: Vec<(String, CollectionIntrinsic)>,
    pub cell_intrinsics: Vec<(String, CollectionIntrinsic)>,
    pub extern_function_bindings: Vec<(String, FunctionID)>,
    pub extern_function_exports: Vec<(String, FunctionID)>,
}

/// The position of the first declaration with the identifier `id`.
pub open spec fn decl_index(decls: Seq<TypeDeclaration>, id: TypeID) -> Option<int>
    decreases decls.len(),
{
    if decls.len() == 0 {
        None
    } else if decls[0].spec_id() == id {
        Some(0int)
    } else {
        match decl_index(decls.skip(1), id) {
            Some(i) => Some(i + 1),
            None => None,
        }
    }
}

/// `decl_index` finds the first declaration with that identifier and no other.
pub proof fn lemma_decl_index(decls: Seq<TypeDeclaration>, id: TypeID)
    ensures
        match decl_index(decls, id) {
            Some(i) => 0 <= i < decls.len() && decls[i].spec_id() == id && forall|k: int|
                0 <= k < i ==> decls[k].spec_id() != id,
            None => forall|k: int| 0 <= k < decls.len() ==> decls[k].spec_id() != id,
        },
    decreases decls.len(),
{
    if decls.len() > 0 && decls[0].spec_id() != id {
        let rest = decls.skip(1);
        lemma_decl_index(rest, id);
        assert forall|k: int| 0 < k < decls.len() implies decls[k] == rest[k - 1] by {}
    }
}

/// The position of the first signature with the identifier `id`.
pub open spec fn func_index(funcs: Seq<FuncType>, id: FunctionID) -> Option<int>
    decreases funcs.len(),
{
    if funcs.len() == 0 {
        None
    } else if funcs[0].id == id {
        Some(0int)
    } else {
        match func_index(funcs.skip(1), id) {
            Some(i) => Some(i + 1),
            None => None,
        }
    }
}

/// `func_index` finds the first signature with that identifier and no other.
pub proof fn lemma_func_index(funcs: Seq<FuncType>, id: FunctionID)
    ensures
        match func_index(funcs, id) {
            Some(i) => 0 <= i < funcs.len() && funcs[i].id == id && forall|k: int|
                0 <= k < i ==> funcs[k].id != id,
            None => forall|k: int| 0 <= k < funcs.len() ==> funcs[k].id != id,
        },
    decreases funcs.len(),
{
    if funcs.len() > 0 && funcs[0].id != id {
        let rest = funcs.skip(1);
        lemma_func_index(rest, id);
        assert forall|k: int| 0 < k < funcs.len() implies funcs[k] == rest[k - 1] by {}
    }
}

impl DeclarationContext {
    /// The declaration with the identifier `id`, if there is one.
    pub open spec fn spec_decl(&self, id: TypeID) -> Option<TypeDeclaration> {
        match decl_index(self.id_to_decl@, id) {
            Some(i) => Some(self.id_to_decl@[i]),
            None => None,
        }
    }

    /// The signature with the identifier `id`, if there is one.
    pub open spec fn spec_func(&self, id: FunctionID) -> Option<FuncType> {
        match func_index(self.id_to_func@, id) {
            Some(i) => Some(self.id_to_func@[i]),
            None => None,
        }
    }

    /// A context in which nothing is declared; the module of the intrinsics
    /// belongs to the file `intrinsic_file`.
    pub fn empty(intrinsic_file: FileID) -> (ctx: DeclarationContext)
        ensures
            ctx.intrinsic_module.id == intrinsic_file,
            ctx.intrinsic_module.module_id == TypeID(intrinsic_file, 1),
            ctx.intrinsic_module.func_id_counter == 1,
            ctx.intrinsic_module.type_id_counter == 2,
            ctx.intrinsic_module.imports@.len() == 0,
            ctx.files@.len() == 0,
            ctx.id_to_decl@.len() == 0,
            ctx.id_to_func@.len() == 0,
            ctx.intrinsic_to_id@.len() == 0,
            ctx.array_intrinsics@.len() == 0,
            ctx.dict_intrinsics@.len() == 0,
            ctx.rc_intrinsics@.len() == 0,
            ctx.cell_intrinsics@.len() == 0,
            ctx.extern_function_bindings@.len() == 0,
            ctx.extern_function_exports@.len() == 0,
    {
        DeclarationContext {
            intrinsic_module: FileDeclarations::new(intrinsic_file),
            files: Vec::new(),
            id_to_decl: Vec::new(),
            id_to_func: Vec::new(),
            intrinsic_to_id: Vec::new(),
            array_intrinsics: Vec::new(),
            dict_intrinsics: Vec::new(),
            rc_intrinsics: Vec::new(),
            cell_intrinsics: Vec::new(),
            extern_function_bindings: Vec::new(),
            extern_function_exports: Vec::new(),
        }
    }

    /// The declaration with the identifier `id`.
    pub fn decl(&self, id: TypeID) -> (r: Option<&TypeDeclaration>)
        ensures
            match r {
                Some(d) => self.spec_decl(id) == Some(*d),
                None => self.spec_decl(id).is_none(),
            },
    {
        let mut i: usize = 0;
        while i < self.id_to_decl.len()
            invariant
                0 <= i <= self.id_to_decl.len(),
                forall|k: int| 0 <= k < i ==> self.id_to_decl@[k].spec_id() != id,
            decreases self.id_to_decl.len() - i,
        {
            if self.id_to_decl[i].id() == id {
                proof {
                    lemma_decl_index(self.id_to_decl@, id);
                }
                return Some(&self.id_to_decl[i]);
            }
            i = i + 1;
        }
        proof {
            lemma_decl_index(self.id_to_decl@, id);
        }
        None
    }

    /// The signature of the function with the identifier `id`.
    pub fn func(&self, id: FunctionID) -> (r: Option<&FuncType>)
        ensures
            match r {
                Some(f) => self.spec_func(id) == Some(*f),
                None => self.spec_func(id).is_none(),
            },
    {
        let mut i: usize = 0;
        while i < self.id_to_func.len()
            invariant
                0 <= i <= self.id_to_func.len(),
                forall|k: int| 0 <= k < i ==> self.id_to_func@[k].id != id,
            decreases self.id_to_func.len() - i,
        {
            if self.id_to_func[i].id == id {
                proof {
                    lemma_func_index(self.id_to_func@, id);
                }
                return Some(&self.id_to_func[i]);
            }
            i = i + 1;
        }
        proof {
            lemma_func_index(self.id_to_func@, id);
        }
        None
    }
}

/// Whether the string is the given word.
pub fn is_word(s: &String, word: &str) -> (r: bool)
    ensures
        r == (s@ == word@),
{
    let text = s.as_str();
    let n = word.unicode_len();
    if text.unicode_len() != n {
        return false;
    }
    let mut i: usize = 0;
    while i < n
        invariant
            0 <= i <= n,
            n == word@.len(),
            n == text@.len(),
            text@ == s@,
            forall|k: int| 0 <= k < i ==> text@[k] == word@[k],
        decreases n - i,
    {
        if text.get_char(i) != word.get_char(i) {
            return false;
        }
        i = i + 1;
    }
    assert(text@ =~= word@);
    true
}

/// What went wrong, and where in the source.
pub type Failure = (TypecheckError, SourceRange);

/// The type that a name written as a type stands for: one of the
/// built-in types, else a value of the declared type of that name.
pub open spec fn named_type(names: Seq<(String, TypeID)>, name: Seq<char>) -> Option<
    ExpressionType,
> {
    if name == "bool"@ {
        Some(ExpressionType::Primitive(PrimitiveType::Bool))
    } else if name == "i32"@ {
        Some(ExpressionType::Primitive(PrimitiveType::Int32))
    } else if name == "f32"@ {
        Some(ExpressionType::Primitive(PrimitiveType::Float32))
    } else if name == "i64"@ {
        Some(ExpressionType::Primitive(PrimitiveType::Int64))
    } else if name == "f64"@ {
        Some(ExpressionType::Primitive(PrimitiveType::Float64))
    } else if name == "char"@ {
        Some(ExpressionType::Primitive(PrimitiveType::Char))
    } else if name == "string"@ {
        Some(ExpressionType::Collection(CollectionType::String))
    } else if name == "size"@ {
        Some(ExpressionType::Primitive(PrimitiveType::PointerSize))
    } else {
        match name_index(names, name) {
            Some(i) => Some(ExpressionType::InstanceOf(names[i].1)),
            None => None,
        }
    }
}

/// The type that a written type stands for, given the types that the
/// file knows by name; or the first name in it that stands for nothing,
/// with the place where it is written.
pub open spec fn resolved_type(names: Seq<(String, TypeID)>, node: AstType) -> Result<
    ExpressionType,
    Failure,
>
    decreases node,
{
    match node.value {
        AstTypeValue::Name(name) => match named_type(names, name@) {
            Some(ty) => Ok(ty),
            None => Err((TypecheckError::NameNotFound, node.provenance)),
        },
        AstTypeValue::Void => Ok(ExpressionType::Void),
        AstTypeValue::Unique(inner) => match resolved_type(names, *inner) {
            Ok(ty) => Ok(ExpressionType::Pointer(PointerKind::Unique, Box::new(ty))),
            Err(e) => Err(e),
        },
        AstTypeValue::Shared(inner) => match resolved_type(names, *inner) {
            Ok(ty) => Ok(ExpressionType::Pointer(PointerKind::Shared, Box::new(ty))),
            Err(e) => Err(e),
        },
        AstTypeValue::Array(inner) => match resolved_type(names, *inner) {
            Ok(ty) => Ok(ExpressionType::Collection(CollectionType::Array(Box::new(ty)))),
            Err(e) => Err(e),
        },
        AstTypeValue::Rc(inner) => match resolved_type(names, *inner) {
            Ok(ty) => Ok(
                ExpressionType::Collection(CollectionType::ReferenceCounter(Box::new(ty))),
            ),
            Err(e) => Err(e),
        },
        AstTypeValue::Cell(inner) => match resolved_type(names, *inner) {
            Ok(ty) => Ok(ExpressionType::Collection(CollectionType::Cell(Box::new(ty)))),
            Err(e) => Err(e),
        },
        AstTypeValue::Nullable(inner) => match resolved_type(names, *inner) {
            Ok(ty) => Ok(ExpressionType::Nullable(Box::new(ty))),
            Err(e) => Err(e),
        },
        AstTypeValue::Dict(key, value) => match resolved_type(names, *key) {
            Ok(k) => match resolved_type(names, *value) {
                Ok(v) => Ok(
                    ExpressionType::Collection(CollectionType::Dict(Box::new(k), Box::new(v))),
                ),
                Err(e) => Err(e),
            },
            Err(e) => Err(e),
        },
        AstTypeValue::Generator { yield_ty, param_ty } => match resolved_type(names, *yield_ty) {
            Ok(y) => match resolved_type(names, *param_ty) {
                Ok(p) => Ok(
                    ExpressionType::Generator { yield_ty: Box::new(y), param_ty: Box::new(p) },
                ),
                Err(e) => Err(e),
            },
            Err(e) => Err(e),
        },
    }
}

/// An executable result against the result that the rules give: the same
/// value, or the same error at the same place.
pub open spec fn agrees<T>(r: Result<T, (TypecheckError, &SourceRange)>, wanted: Result<T, Failure>) -> bool {
    match wanted {
        Ok(v) => r matches Ok(found) && found == v,
        Err((e, at)) => r matches Err((found, place)) && found == e && *place == at,
    }
}

fn type_named(names: &Vec<(String, TypeID)>, name: &String) -> (r: Option<ExpressionType>)
    ensures
        r == named_type(names@, name@),
{
    if is_word(name, "bool") {
        Some(ExpressionType::Primitive(PrimitiveType::Bool))
    } else if is_word(name, "i32") {
        Some(ExpressionType::Primitive(PrimitiveType::Int32))
    } else if is_word(name, "f32") {
        Some(ExpressionType::Primitive(PrimitiveType::Float32))
    } else if is_word(name, "i64") {
        Some(ExpressionType::Primitive(PrimitiveType::Int64))
    } else if is_word(name, "f64") {
        Some(ExpressionType::Primitive(PrimitiveType::Float64))
    } else if is_word(name, "char") {
        Some(ExpressionType::Primitive(PrimitiveType::Char))
    } else if is_word(name, "string") {
        Some(ExpressionType::Collection(CollectionType::String))
    } else if is_word(name, "size") {
        Some(ExpressionType::Primitive(PrimitiveType::PointerSize))
    } else {
        match find_name(names, name) {
            Some(i) => Some(ExpressionType::InstanceOf(names[i].1)),
            None => None,
        }
    }
}

/// The type that a written type stands for; see `resolved_type`.
pub fn resolve_type_expr<'a>(names: &Vec<(String, TypeID)>, node: &'a AstType) -> (r: Result<
    ExpressionType,
    (TypecheckError, &'a SourceRange),
>)
    ensures
        agrees(r, resolved_type(names@, *node)),
    decreases *node,
{
    match &node.value {
        AstTypeValue::Name(name) => match type_named(names, name) {
            Some(ty) => Ok(ty),
            None => Err((TypecheckError::NameNotFound, &node.provenance)),
        },
        AstTypeValue::Void => Ok(ExpressionType::Void),
        AstTypeValue::Unique(inner) => match resolve_type_expr(names, inner) {
            Ok(ty) => Ok(ExpressionType::Pointer(PointerKind::Unique, Box::new(ty))),
            Err(e) => Err(e),
        },
        AstTypeValue::Shared(inner) => match resolve_type_expr(names, inner) {
            Ok(ty) => Ok(ExpressionType::Pointer(PointerKind::Shared, Box::new(ty))),
            Err(e) => Err(e),
        },
        AstTypeValue::Array(inner) => match resolve_type_expr(names, inner) {
            Ok(ty) => Ok(ExpressionType::Collection(CollectionType::Array(Box::new(ty)))),
            Err(e) => Err(e),
        },
        AstTypeValue::Rc(inner) => match resolve_type_expr(names, inner) {
            Ok(ty) => Ok(
                ExpressionType::Collection(CollectionType::ReferenceCounter(Box::new(ty))),
            ),
            Err(e) => Err(e),
        },
        AstTypeValue::Cell(inner) => match resolve_type_expr(names, inner) {
            Ok(ty) => Ok(ExpressionType::Collection(CollectionType::Cell(Box::new(ty)))),
            Err(e) => Err(e),
        },
        AstTypeValue::Nullable(inner) => match resolve_type_expr(names, inner) {
            Ok(ty) => Ok(ExpressionType::Nullable(Box::new(ty))),
            Err(e) => Err(e),
        },
        AstTypeValue::Dict(key, value) => match resolve_type_expr(names, key) {
            Ok(k) => match resolve_type_expr(names, value) {
                Ok(v) => Ok(
                    ExpressionType::Collection(CollectionType::Dict(Box::new(k), Box::new(v))),
                ),
                Err(e) => Err(e),
            },
            Err(e) => Err(e),
        },
        AstTypeValue::Generator { yield_ty, param_ty } => match resolve_type_expr(names, yield_ty) {
            Ok(y) => match resolve_type_expr(names, param_ty) {
                Ok(p) => Ok(
                    ExpressionType::Generator { yield_ty: Box::new(y), param_ty: Box::new(p) },
                ),
                Err(e) => Err(e),
            },
            Err(e) => Err(e),
        },
    }
}

/// The type of the `self` parameter of a method of the type `context`:
/// a pointer to it of the kind written, or the type itself where `self`
/// is taken whole. A function outside a type has no `self`.
pub open spec fn self_param_type(
    self_param: Option<SelfParameter>,
    context: Option<ExpressionType>,
) -> Result<Option<ExpressionType>, TypecheckError> {
    match self_param {
        None => Ok(None),
        Some(kind) => match context {
            None => Err(TypecheckError::SelfParameterInNonAssociatedFunc),
            Some(ty) => Ok(
                Some(
                    match kind {
                        SelfParameter::Unique => ExpressionType::Pointer(
                            PointerKind::Unique,
                            Box::new(ty),
                        ),
                        SelfParameter::Shared => ExpressionType::Pointer(
                            PointerKind::Shared,
                            Box::new(ty),
                        ),
                        SelfParameter::Owned => ty,
                    },
                ),
            ),
        },
    }
}

/// The type of the `self` parameter; see `self_param_type`.
pub fn include_self_param(
    self_param: Option<SelfParameter>,
    self_context: Option<&ExpressionType>,
) -> (r: Result<Option<ExpressionType>, TypecheckError>)
    ensures
        r == self_param_type(
            self_param,
            match self_context {
                Some(ty) => Some(*ty),
                None => None,
            },
        ),
{
    match self_param {
        None => Ok(None),
        Some(kind) => match self_context {
            None => Err(TypecheckError::SelfParameterInNonAssociatedFunc),
            Some(ty) => Ok(
                Some(
                    match kind {
                        SelfParameter::Unique => ExpressionType::Pointer(
                            PointerKind::Unique,
                            Box::new(ty.duplicate()),
                        ),
                        SelfParameter::Shared => ExpressionType::Pointer(
                            PointerKind::Shared,
                            Box::new(ty.duplicate()),
                        ),
                        SelfParameter::Owned => ty.duplicate(),
                    },
                ),
            ),
        },
    }
}

/// The types of the first `n` written parameters, or the first failure
/// among them.
pub open spec fn resolved_params(names: Seq<(String, TypeID)>, params: Seq<NameAndType>, n: int) -> Result<
    Seq<ExpressionType>,
    Failure,
>
    decreases n,
{
    if n <= 0 {
        Ok(Seq::empty())
    } else {
        match resolved_params(names, params, n - 1) {
            Ok(before) => match resolved_type(names, params[n - 1].ty) {
                Ok(ty) => Ok(before.push(ty)),
                Err(e) => Err(e),
            },
            Err(e) => Err(e),
        }
    }
}

/// What a function returns: what is written, `Void` where nothing is.
pub open spec fn resolved_return(names: Seq<(String, TypeID)>, written: Option<AstType>) -> Result<
    ExpressionType,
    Failure,
> {
    match written {
        Some(ty) => resolved_type(names, ty),
        None => Ok(ExpressionType::Void),
    }
}

/// The parameter types and the return type of a written signature: the
/// type of `self`, if it has one, then the written parameters in order.
/// The first failure is reported: a `self` outside a type, at the place
/// of the function; else the first name that stands for nothing.
pub open spec fn resolved_signature(
    names: Seq<(String, TypeID)>,
    header: FunctionHeaderValue,
    context: Option<ExpressionType>,
    provenance: SourceRange,
) -> Result<(Seq<ExpressionType>, ExpressionType), Failure> {
    match self_param_type(header.self_param, context) {
        Err(e) => Err((e, provenance)),
        Ok(first) => match resolved_params(names, header.params@, header.params@.len() as int) {
            Err(e) => Err(e),
            Ok(rest) => match resolved_return(names, header.returns) {
                Err(e) => Err(e),
                Ok(ret) => Ok(
                    (
                        match first {
                            Some(ty) => seq![ty] + rest,
                            None => rest,
                        },
                        ret,
                    ),
                ),
            },
        },
    }
}

/// Whether the signature is the one that the rules give for a written
/// function.
pub open spec fn is_signature(
    func: FuncType,
    id: FunctionID,
    shape: (Seq<ExpressionType>, ExpressionType),
    is_associated: bool,
    is_coroutine: bool,
) -> bool {
    &&& func.id == id
    &&& func.type_param_count == 0
    &&& func.params@ == shape.0
    &&& func.returns == shape.1
    &&& func.is_associated == is_associated
    &&& func.is_coroutine == is_coroutine
}

/// The signature of a function from its written header; see
/// `resolved_signature`.
pub fn fill_in_fn_header<'a>(
    names: &Vec<(String, TypeID)>,
    id: FunctionID,
    header: &'a FunctionHeaderValue,
    is_associated: bool,
    is_coroutine: bool,
    provenance: &'a SourceRange,
    self_context: Option<&ExpressionType>,
) -> (r: Result<FuncType, (TypecheckError, &'a SourceRange)>)
    ensures
        match resolved_signature(
            names@,
            *header,
            match self_context {
                Some(ty) => Some(*ty),
                None => None,
            },
            *provenance,
        ) {
            Ok(shape) => r matches Ok(func) && is_signature(
                func,
                id,
                shape,
                is_associated,
                is_coroutine,
            ),
            Err((e, at)) => r matches Err((found, place)) && found == e && *place == at,
        },
{
    let ghost context = match self_context {
        Some(ty) => Some(*ty),
        None => None,
    };
    let mut params: Vec<ExpressionType> = Vec::new();
    match include_self_param(header.self_param, self_context) {
        Err(e) => {
            return Err((e, provenance));
        },
        Ok(Some(ty)) => {
            params.push(ty);
        },
        Ok(None) => {},
    }
    let ghost first = params@;
    let mut i: usize = 0;
    while i < header.params.len()
        invariant
            0 <= i <= header.params@.len(),
            self_param_type(header.self_param, context) is Ok,
            first == match self_param_type(header.self_param, context)->Ok_0 {
                Some(ty) => seq![ty],
                None => Seq::empty(),
            },
            resolved_params(names@, header.params@, i as int) is Ok,
            params@ == first + resolved_params(names@, header.params@, i as int)->Ok_0,
            context == match self_context {
                Some(ty) => Some(*ty),
                None => None,
            },
        decreases header.params@.len() - i,
    {
        proof {
            lemma_params_failure_stays(names@, header.params@, i + 1, header.params@.len() as int);
        }
        match resolve_type_expr(names, &header.params[i].ty) {
            Ok(ty) => {
                let ghost before = resolved_params(names@, header.params@, i as int)->Ok_0;
                params.push(ty);
                assert(params@ =~= first + before.push(ty));
            },
            Err(e) => {
                return Err(e);
            },
        }
        i = i + 1;
    }
    let result_ty = match &header.returns {
        Some(ty) => match resolve_type_expr(names, ty) {
            Ok(ty) => ty,
            Err(e) => {
                return Err(e);
            },
        },
        None => ExpressionType::Void,
    };
    proof {
        let rest = resolved_params(names@, header.params@, header.params@.len() as int)->Ok_0;
        assert(first + rest =~= match self_param_type(header.self_param, context)->Ok_0 {
            Some(ty) => seq![ty] + rest,
            None => rest,
        });
    }
    Ok(
        FuncType {
            id,
            type_param_count: 0,
            params,
            returns: result_ty,
            is_associated,
            is_coroutine,
            provenance: None,
        },
    )
}

/// A failure among the first parameters is the failure of them all.
pub proof fn lemma_params_failure_stays(
    names: Seq<(String, TypeID)>,
    params: Seq<NameAndType>,
    k: int,
    n: int,
)
    requires
        0 <= k <= n,
    ensures
        resolved_params(names, params, k) is Err ==> resolved_params(names, params, n)
            == resolved_params(names, params, k),
    decreases n - k,
{
    if k < n {
        lemma_params_failure_stays(names, params, k, n - 1);
    }
}

/// The signature of a function with a body; see `resolved_signature`.
pub fn fill_in_fn_decl<'a>(
    names: &Vec<(String, TypeID)>,
    id: FunctionID,
    func: &'a FunctionDeclarationValue,
    is_associated: bool,
    provenance: &'a SourceRange,
    self_context: Option<&ExpressionType>,
) -> (r: Result<FuncType, (TypecheckError, &'a SourceRange)>)
    ensures
        match resolved_signature(
            names@,
            func.header,
            match self_context {
                Some(ty) => Some(*ty),
                None => None,
            },
            *provenance,
        ) {
            Ok(shape) => r matches Ok(f) && is_signature(
                f,
                id,
                shape,
                is_associated,
                func.is_coroutine,
            ),
            Err((e, at)) => r matches Err((found, place)) && found == e && *place == at,
        },
{
    fill_in_fn_header(
        names,
        id,
        &func.header,
        is_associated,
        func.is_coroutine,
        provenance,
        self_context,
    )
}

/// The type of a field or of a payload: what is written, which may be
/// no pointer, for data holds no references.
pub open spec fn resolved_field(names: Seq<(String, TypeID)>, field: NameAndType) -> Result<
    ExpressionType,
    Failure,
> {
    match resolved_type(names, field.ty) {
        Ok(ty) => if ty is Pointer {
            Err((TypecheckError::IllegalReferenceInsideDataType, field.provenance))
        } else {
            Ok(ty)
        },
        Err(e) => Err(e),
    }
}

/// The type of a field or of a payload; see `resolved_field`.
pub fn resolve_field<'a>(names: &Vec<(String, TypeID)>, field: &'a NameAndType) -> (r: Result<
    ExpressionType,
    (TypecheckError, &'a SourceRange),
>)
    ensures
        agrees(r, resolved_field(names@, *field)),
{
    match resolve_type_expr(names, &field.ty) {
        Ok(ty) => {
            if ty.is_pointer() {
                Err((TypecheckError::IllegalReferenceInsideDataType, &field.provenance))
            } else {
                Ok(ty)
            }
        },
        Err(e) => Err(e),
    }
}

/// The payload of a variant, if it has one.
pub open spec fn resolved_variant(names: Seq<(String, TypeID)>, variant: UnionDeclarationVariant) -> Result<
    Option<ExpressionType>,
    Failure,
> {
    match variant {
        UnionDeclarationVariant::WithValue(field) => match resolved_field(names, field) {
            Ok(ty) => Ok(Some(ty)),
            Err(e) => Err(e),
        },
        UnionDeclarationVariant::WithoutValue(_) => Ok(None),
    }
}

/// The first failure among the first `n` variants.
pub open spec fn variants_failure(
    names: Seq<(String, TypeID)>,
    variants: Seq<UnionDeclarationVariant>,
    n: int,
) -> Option<Failure>
    decreases n,
{
    if n <= 0 {
        None
    } else {
        match variants_failure(names, variants, n - 1) {
            Some(e) => Some(e),
            None => match resolved_variant(names, variants[n - 1]) {
                Ok(_) => None,
                Err(e) => Some(e),
            },
        }
    }
}

/// The first failure among the first `n` fields.
pub open spec fn fields_failure(names: Seq<(String, TypeID)>, fields: Seq<NameAndType>, n: int) -> Option<
    Failure,
>
    decreases n,
{
    if n <= 0 {
        None
    } else {
        match fields_failure(names, fields, n - 1) {
            Some(e) => Some(e),
            None => match resolved_field(names, fields[n - 1]) {
                Ok(_) => None,
                Err(e) => Some(e),
            },
        }
    }
}

/// Whether every property is one that is known: `Resource`, which says
/// that values of the type may be used at most once.
pub open spec fn properties_known(properties: Seq<String>) -> bool {
    forall|i: int| 0 <= i < properties.len() ==> (#[trigger] properties[i])@ == "Resource"@
}

/// Whether every property is known, and whether there is one.
pub fn check_properties(properties: &Vec<String>) -> (r: Option<bool>)
    ensures
        r == if properties_known(properties@) {
            Some(properties@.len() > 0)
        } else {
            None
        },
{
    let mut i: usize = 0;
    while i < properties.len()
        invariant
            0 <= i <= properties.len(),
            forall|k: int| 0 <= k < i ==> (#[trigger] properties@[k])@ == "Resource"@,
        decreases properties.len() - i,
    {
        if !is_word(&properties[i], "Resource") {
            return None;
        }
        i = i + 1;
    }
    Some(properties.len() > 0)
}

/// What is wrong with a union as declared, if anything: the first
/// variant that fails, else a property that is not known, else a name
/// under which the file knows no type; the last two at the place of the
/// declaration.
pub open spec fn union_failure(
    names: Seq<(String, TypeID)>,
    decl: UnionDeclarationValue,
    provenance: SourceRange,
) -> Option<Failure> {
    match variants_failure(names, decl.variants@, decl.variants@.len() as int) {
        Some(e) => Some(e),
        None => if !properties_known(decl.properties@) {
            Some((TypecheckError::UnknownProperty, provenance))
        } else if name_index(names, decl.name@).is_none() {
            Some((TypecheckError::NameNotFound, provenance))
        } else {
            None
        },
    }
}

/// Whether `un` is the union as declared: under the identifier that the
/// file knows its name by, with the variants in the order written, and
/// affine where the declaration says `Resource`.
pub open spec fn is_union_of(
    un: UnionType,
    names: Seq<(String, TypeID)>,
    decl: UnionDeclarationValue,
) -> bool {
    &&& name_index(names, decl.name@) matches Some(at) && un.id == names[at].1
    &&& un.variants@.len() == decl.variants@.len()
    &&& forall|i: int|
        #![trigger un.variants@[i]]
        0 <= i < un.variants@.len() ==> un.variants@[i].0@ == decl.variants@[i].spec_name()
            && resolved_variant(names, decl.variants@[i]) == Ok::<Option<ExpressionType>, Failure>(
            un.variants@[i].1,
        )
    &&& un.is_affine == (decl.properties@.len() > 0)
}

/// A failure among the first variants is the failure of them all.
pub proof fn lemma_variants_failure_stays(
    names: Seq<(String, TypeID)>,
    variants: Seq<UnionDeclarationVariant>,
    k: int,
    n: int,
)
    requires
        0 <= k <= n,
    ensures
        variants_failure(names, variants, k) is Some ==> variants_failure(names, variants, n)
            == variants_failure(names, variants, k),
    decreases n - k,
{
    if k < n {
        lemma_variants_failure_stays(names, variants, k, n - 1);
    }
}

/// A failure among the first fields is the failure of them all.
pub proof fn lemma_fields_failure_stays(
    names: Seq<(String, TypeID)>,
    fields: Seq<NameAndType>,
    k: int,
    n: int,
)
    requires
        0 <= k <= n,
    ensures
        fields_failure(names, fields, k) is Some ==> fields_failure(names, fields, n)
            == fields_failure(names, fields, k),
    decreases n - k,
{
    if k < n {
        lemma_fields_failure_stays(names, fields, k, n - 1);
    }
}

/// The union as declared, or what is wrong with the declaration; see
/// `union_failure` and `is_union_of`.
pub fn fill_in_union_decl<'a>(
    names: &Vec<(String, TypeID)>,
    decl: &'a UnionDeclarationValue,
    provenance: &'a SourceRange,
) -> (r: Result<TypeDeclaration, (TypecheckError, &'a SourceRange)>)
    ensures
        match union_failure(names@, *decl, *provenance) {
            Some((e, at)) => r matches Err((found, place)) && found == e && *place == at,
            None => r matches Ok(TypeDeclaration::Union(un)) && is_union_of(un, names@, *decl),
        },
{
    let mut variants: Vec<(String, Option<ExpressionType>)> = Vec::new();
    let mut i: usize = 0;
    while i < decl.variants.len()
        invariant
            0 <= i <= decl.variants@.len(),
            variants@.len() == i,
            variants_failure(names@, decl.variants@, i as int).is_none(),
            forall|k: int|
                #![trigger variants@[k]]
                0 <= k < i ==> variants@[k].0@ == decl.variants@[k].spec_name()
                    && resolved_variant(names@, decl.variants@[k]) == Ok::<
                    Option<ExpressionType>,
                    Failure,
                >(variants@[k].1),
        decreases decl.variants@.len() - i,
    {
        proof {
            lemma_variants_failure_stays(
                names@,
                decl.variants@,
                i + 1,
                decl.variants@.len() as int,
            );
        }
        match &decl.variants[i] {
            UnionDeclarationVariant::WithValue(field) => match resolve_field(names, field) {
                Ok(ty) => {
                    variants.push((field.name.clone(), Some(ty)));
                },
                Err(e) => {
                    return Err(e);
                },
            },
            UnionDeclarationVariant::WithoutValue(name) => {
                variants.push((name.clone(), None));
            },
        }
        i = i + 1;
    }
    let is_affine = match check_properties(&decl.properties) {
        Some(b) => b,
        None => {
            return Err((TypecheckError::UnknownProperty, provenance));
        },
    };
    match find_name(names, &decl.name) {
        Some(at) => Ok(TypeDeclaration::Union(UnionType { id: names[at].1, variants, is_affine })),
        None => Err((TypecheckError::NameNotFound, provenance)),
    }
}

/// The counter after `n` identifiers are drawn.
pub open spec fn iter_counter(c: u32, n: int) -> u32
    decreases n,
{
    if n <= 0 {
        c
    } else {
        next_counter(iter_counter(c, n - 1))
    }
}

/// A method as written: its header, whether it is a coroutine, and where
/// it stands.
pub struct WrittenMethod {
    pub header: FunctionHeaderValue,
    pub is_coroutine: bool,
    pub provenance: SourceRange,
}

/// The methods of a struct as written.
pub open spec fn struct_methods(decl: StructDeclarationValue) -> Seq<WrittenMethod> {
    Seq::new(
        decl.associated_functions@.len(),
        |j: int|
            WrittenMethod {
                header: decl.associated_functions@[j].0.header,
                is_coroutine: decl.associated_functions@[j].0.is_coroutine,
                provenance: decl.associated_functions@[j].1,
            },
    )
}

/// The methods of an interface as written; one that is only required is
/// no coroutine.
pub open spec fn interface_methods(decl: InterfaceDeclarationValue) -> Seq<WrittenMethod> {
    Seq::new(
        decl.associated_functions@.len(),
        |j: int|
            match decl.associated_functions@[j].0 {
                InterfaceFunction::Required(header) => WrittenMethod {
                    header,
                    is_coroutine: false,
                    provenance: decl.associated_functions@[j].1,
                },
                InterfaceFunction::Provided(func) => WrittenMethod {
                    header: func.header,
                    is_coroutine: func.is_coroutine,
                    provenance: decl.associated_functions@[j].1,
                },
            },
    )
}

/// The first failure among the signatures of the first `n` methods of
/// the type `self_ty`.
pub open spec fn methods_failure(
    names: Seq<(String, TypeID)>,
    methods: Seq<WrittenMethod>,
    self_ty: ExpressionType,
    n: int,
) -> Option<Failure>
    decreases n,
{
    if n <= 0 {
        None
    } else {
        match methods_failure(names, methods, self_ty, n - 1) {
            Some(e) => Some(e),
            None => match resolved_signature(
                names,
                methods[n - 1].header,
                Some(self_ty),
                methods[n - 1].provenance,
            ) {
                Ok(_) => None,
                Err(e) => Some(e),
            },
        }
    }
}

/// A failure among the first methods is the failure of them all.
pub proof fn lemma_methods_failure_stays(
    names: Seq<(String, TypeID)>,
    methods: Seq<WrittenMethod>,
    self_ty: ExpressionType,
    k: int,
    n: int,
)
    requires
        0 <= k <= n,
    ensures
        methods_failure(names, methods, self_ty, k) is Some ==> methods_failure(
            names,
            methods,
            self_ty,
            n,
        ) == methods_failure(names, methods, self_ty, k),
    decreases n - k,
{
    if k < n {
        lemma_methods_failure_stays(names, methods, self_ty, k, n - 1);
    }
}

/// Drawing `a` identifiers and then `b` more is drawing `a + b`.
pub proof fn lemma_iter_counter_adds(c: u32, a: int, b: int)
    requires
        0 <= a,
        0 <= b,
    ensures
        iter_counter(iter_counter(c, a), b) == iter_counter(c, a + b),
    decreases b,
{
    if b > 0 {
        lemma_iter_counter_adds(c, a, b - 1);
    }
}

/// Whether `table` names the methods, in the order written, each under
/// the function identifier that it drew: the `j`-th method the `j`-th
/// identifier of the file from `counter` on.
pub open spec fn method_table(
    table: Seq<(String, FunctionID)>,
    methods: Seq<WrittenMethod>,
    file: FileID,
    counter: u32,
) -> bool {
    &&& table.len() == methods.len()
    &&& forall|j: int|
        #![trigger table[j]]
        0 <= j < table.len() ==> table[j].0@ == methods[j].header.name@ && table[j].1
            == FunctionID(file, iter_counter(counter, j))
}

/// Whether `func` is the signature of the method of the type `self_ty`
/// as written, under the identifier `id`.
pub open spec fn is_method_signature(
    names: Seq<(String, TypeID)>,
    method: WrittenMethod,
    self_ty: ExpressionType,
    func: FuncType,
    id: FunctionID,
) -> bool {
    resolved_signature(names, method.header, Some(self_ty), method.provenance) matches Ok(shape)
        && is_signature(func, id, shape, true, method.is_coroutine)
}

/// Whether the signatures of the methods of the type `self_ty` stand
/// among `funcs` from position `base` on, in the order written, each
/// under the function identifier that it drew.
pub open spec fn signatures_at(
    names: Seq<(String, TypeID)>,
    methods: Seq<WrittenMethod>,
    self_ty: ExpressionType,
    file: FileID,
    counter: u32,
    funcs: Seq<FuncType>,
    base: int,
) -> bool {
    &&& 0 <= base
    &&& base + methods.len() <= funcs.len()
    &&& forall|j: int|
        #![trigger methods[j]]
        0 <= j < methods.len() ==> is_method_signature(
            names,
            methods[j],
            self_ty,
            funcs[base + j],
            FunctionID(file, iter_counter(counter, j)),
        )
}

/// What is wrong with a struct as declared, if anything: a name under
/// which the file knows no type, else the first field that fails, else
/// the first method whose signature fails, else a property that is not
/// known.
pub open spec fn struct_failure(
    names: Seq<(String, TypeID)>,
    decl: StructDeclarationValue,
    provenance: SourceRange,
) -> Option<Failure> {
    match name_index(names, decl.name@) {
        None => Some((TypecheckError::NameNotFound, provenance)),
        Some(at) => match fields_failure(names, decl.fields@, decl.fields@.len() as int) {
            Some(e) => Some(e),
            None => match methods_failure(
                names,
                struct_methods(decl),
                ExpressionType::InstanceOf(names[at].1),
                decl.associated_functions@.len() as int,
            ) {
                Some(e) => Some(e),
                None => if !properties_known(decl.properties@) {
                    Some((TypecheckError::UnknownProperty, provenance))
                } else {
                    None
                },
            },
        },
    }
}

/// Whether `st` is the struct as declared: under the identifier that
/// the file knows its name by, with the fields in the order written,
/// with its methods by name, see `method_table`, and affine where the
/// declaration says `Resource`.
pub open spec fn is_struct_of(
    st: StructType,
    names: Seq<(String, TypeID)>,
    decl: StructDeclarationValue,
    file: FileID,
    counter: u32,
) -> bool {
    &&& name_index(names, decl.name@) matches Some(at) && st.id == names[at].1
    &&& st.fields@.len() == decl.fields@.len()
    &&& forall|i: int|
        #![trigger st.fields@[i]]
        0 <= i < st.fields@.len() ==> st.fields@[i].0@ == decl.fields@[i].name@ && resolved_field(
            names,
            decl.fields@[i],
        ) == Ok::<ExpressionType, Failure>(st.fields@[i].1)
    &&& method_table(st.associated_functions@, struct_methods(decl), file, counter)
    &&& st.is_affine == (decl.properties@.len() > 0)
}

/// Whether `it` is the interface as declared: under the identifier that
/// the file knows its name by, with its methods by name; see
/// `method_table`.
pub open spec fn is_interface_of(
    it: InterfaceType,
    names: Seq<(String, TypeID)>,
    decl: InterfaceDeclarationValue,
    file: FileID,
    counter: u32,
) -> bool {
    &&& name_index(names, decl.name@) matches Some(at) && it.id == names[at].1
    &&& method_table(it.associated_functions@, interface_methods(decl), file, counter)
}

/// Resolves the signatures of the methods of the type `self_ty`, one
/// after the other, up to the first that fails. The `j`-th method stands
/// under the `j`-th function identifier of the file from `counter` on.
/// The result holds the methods by name, their signatures in the same
/// order, and the counter after them.
fn resolve_methods<'a>(
    names: &Vec<(String, TypeID)>,
    file: FileID,
    counter: u32,
    methods: &Vec<(&'a FunctionHeaderValue, bool, &'a SourceRange)>,
    self_ty: &ExpressionType,
    Ghost(written): Ghost<Seq<WrittenMethod>>,
) -> (r: Result<(Vec<(String, FunctionID)>, Vec<FuncType>, u32), (TypecheckError, &'a SourceRange)>)
    requires
        written.len() == methods@.len(),
        forall|j: int|
            #![trigger methods@[j]]
            0 <= j < methods@.len() ==> *methods@[j].0 == written[j].header && methods@[j].1
                == written[j].is_coroutine && *methods@[j].2 == written[j].provenance,
    ensures
        match methods_failure(names@, written, *self_ty, written.len() as int) {
            Some((e, at)) => r matches Err((found, place)) && found == e && *place == at,
            None => r matches Ok((table, funcs, next)) && method_table(
                table@,
                written,
                file,
                counter,
            ) && funcs@.len() == written.len() && signatures_at(
                names@,
                written,
                *self_ty,
                file,
                counter,
                funcs@,
                0,
            ) && next == iter_counter(counter, written.len() as int),
        },
{
    let mut table: Vec<(String, FunctionID)> = Vec::new();
    let mut funcs: Vec<FuncType> = Vec::new();
    let mut next: u32 = counter;
    let mut i: usize = 0;
    while i < methods.len()
        invariant
            0 <= i <= methods@.len(),
            written.len() == methods@.len(),
            forall|j: int|
                #![trigger methods@[j]]
                0 <= j < methods@.len() ==> *methods@[j].0 == written[j].header && methods@[j].1
                    == written[j].is_coroutine && *methods@[j].2 == written[j].provenance,
            next == iter_counter(counter, i as int),
            methods_failure(names@, written, *self_ty, i as int).is_none(),
            table@.len() == i,
            funcs@.len() == i,
            forall|j: int|
                #![trigger table@[j]]
                0 <= j < i ==> table@[j].0@ == written[j].header.name@ && table@[j].1
                    == FunctionID(file, iter_counter(counter, j)),
            forall|j: int|
                #![trigger written[j]]
                0 <= j < i ==> is_method_signature(
                    names@,
                    written[j],
                    *self_ty,
                    funcs@[j],
                    FunctionID(file, iter_counter(counter, j)),
                ),
        decreases methods@.len() - i,
    {
        proof {
            lemma_methods_failure_stays(names@, written, *self_ty, i + 1, written.len() as int);
        }
        let m = &methods[i];
        let id = FunctionID(file, next);
        match fill_in_fn_header(names, id, m.0, true, m.1, m.2, Some(self_ty)) {
            Ok(func) => {
                let ghost table_before = table@;
                let ghost funcs_before = funcs@;
                table.push((m.0.name.clone(), id));
                funcs.push(func);
                next = if next == u32::MAX {
                    0
                } else {
                    next + 1
                };
                proof {
                    assert(methods@[i as int].1 == written[i as int].is_coroutine);
                    assert forall|j: int| #![trigger table@[j]] 0 <= j < i + 1 implies table@[j].0@
                        == written[j].header.name@ && table@[j].1 == FunctionID(
                        file,
                        iter_counter(counter, j),
                    ) by {
                        if j < i {
                            assert(table@[j] == table_before[j]);
                        }
                    }
                    assert forall|j: int|
                        #![trigger written[j]]
                        0 <= j < i + 1 implies is_method_signature(
                        names@,
                        written[j],
                        *self_ty,
                        funcs@[j],
                        FunctionID(file, iter_counter(counter, j)),
                    ) by {
                        if j < i {
                            assert(funcs@[j] == funcs_before[j]);
                        }
                    }
                }
            },
            Err(e) => {
                return Err(e);
            },
        }
        i = i + 1;
    }
    Ok((table, funcs, next))
}

/// The signatures that stand among `funcs` stand among `funcs` followed
/// by more.
pub proof fn lemma_signatures_stay(
    names: Seq<(String, TypeID)>,
    methods: Seq<WrittenMethod>,
    self_ty: ExpressionType,
    file: FileID,
    counter: u32,
    funcs: Seq<FuncType>,
    longer: Seq<FuncType>,
    base: int,
)
    requires
        signatures_at(names, methods, self_ty, file, counter, funcs, base),
        funcs.len() <= longer.len(),
        longer.subrange(0, funcs.len() as int) == funcs,
    ensures
        signatures_at(names, methods, self_ty, file, counter, longer, base),
{
    assert forall|j: int| #![trigger methods[j]] 0 <= j < methods.len() implies longer[base + j]
        == funcs[base + j] by {
        assert(longer.subrange(0, funcs.len() as int)[base + j] == longer[base + j]);
    }
}

/// The struct as declared, or what is wrong with the declaration; see
/// `struct_failure` and `is_struct_of`. Where nothing is wrong, each
/// method draws the next function identifier of the file, and the
/// signatures of the methods are recorded after those that were there;
/// see `signatures_at`. Where something is wrong, nothing is drawn and
/// nothing recorded.
pub fn fill_in_struct_info<'a>(
    names: &Vec<(String, TypeID)>,
    module: &mut FileDeclarations,
    id_to_func: &mut Vec<FuncType>,
    decl: &'a StructDeclarationValue,
    provenance: &'a SourceRange,
) -> (r: Result<TypeDeclaration, (TypecheckError, &'a SourceRange)>)
    ensures
        final(module).id == old(module).id,
        final(module).module_id == old(module).module_id,
        final(module).type_id_counter == old(module).type_id_counter,
        final(module).imports == old(module).imports,
        match struct_failure(names@, *decl, *provenance) {
            Some((e, at)) => {
                &&& r matches Err((found, place)) && found == e && *place == at
                &&& final(id_to_func)@ == old(id_to_func)@
                &&& final(module).func_id_counter == old(module).func_id_counter
            },
            None => {
                &&& r matches Ok(TypeDeclaration::Struct(st)) && is_struct_of(
                    st,
                    names@,
                    *decl,
                    old(module).id,
                    old(module).func_id_counter,
                ) && signatures_at(
                    names@,
                    struct_methods(*decl),
                    ExpressionType::InstanceOf(st.id),
                    old(module).id,
                    old(module).func_id_counter,
                    final(id_to_func)@,
                    old(id_to_func)@.len() as int,
                )
                &&& final(id_to_func)@.len() == old(id_to_func)@.len()
                    + decl.associated_functions@.len()
                &&& final(id_to_func)@.subrange(0, old(id_to_func)@.len() as int) == old(
                    id_to_func,
                )@
                &&& final(module).func_id_counter == iter_counter(
                    old(module).func_id_counter,
                    decl.associated_functions@.len() as int,
                )
            },
        },
{
    let id = match find_name(names, &decl.name) {
        Some(at) => names[at].1,
        None => {
            return Err((TypecheckError::NameNotFound, provenance));
        },
    };
    let mut fields: Vec<(String, ExpressionType)> = Vec::new();
    let mut i: usize = 0;
    while i < decl.fields.len()
        invariant
            0 <= i <= decl.fields@.len(),
            fields@.len() == i,
            name_index(names@, decl.name@).is_some(),
            fields_failure(names@, decl.fields@, i as int).is_none(),
            forall|k: int|
                #![trigger fields@[k]]
                0 <= k < i ==> fields@[k].0@ == decl.fields@[k].name@ && resolved_field(
                    names@,
                    decl.fields@[k],
                ) == Ok::<ExpressionType, Failure>(fields@[k].1),
        decreases decl.fields@.len() - i,
    {
        proof {
            lemma_fields_failure_stays(names@, decl.fields@, i + 1, decl.fields@.len() as int);
        }
        match resolve_field(names, &decl.fields[i]) {
            Ok(ty) => {
                fields.push((decl.fields[i].name.clone(), ty));
            },
            Err(e) => {
                return Err(e);
            },
        }
        i = i + 1;
    }
    let mut methods: Vec<(&FunctionHeaderValue, bool, &SourceRange)> = Vec::new();
    let mut j: usize = 0;
    while j < decl.associated_functions.len()
        invariant
            0 <= j <= decl.associated_functions@.len(),
            methods@.len() == j,
            forall|k: int|
                #![trigger methods@[k]]
                0 <= k < j ==> *methods@[k].0 == struct_methods(*decl)[k].header && methods@[k].1
                    == struct_methods(*decl)[k].is_coroutine && *methods@[k].2 == struct_methods(
                    *decl,
                )[k].provenance,
        decreases decl.associated_functions@.len() - j,
    {
        let f = &decl.associated_functions[j];
        methods.push((&f.0.header, f.0.is_coroutine, &f.1));
        j = j + 1;
    }
    let self_ty = ExpressionType::InstanceOf(id);
    let (table, mut funcs, next) = match resolve_methods(
        names,
        module.id,
        module.func_id_counter,
        &methods,
        &self_ty,
        Ghost(struct_methods(*decl)),
    ) {
        Ok(resolved) => resolved,
        Err(e) => {
            return Err(e);
        },
    };
    let is_affine = match check_properties(&decl.properties) {
        Some(b) => b,
        None => {
            return Err((TypecheckError::UnknownProperty, provenance));
        },
    };
    let ghost before = id_to_func@;
    let ghost resolved = funcs@;
    module.func_id_counter = next;
    id_to_func.append(&mut funcs);
    proof {
        assert(id_to_func@.subrange(0, before.len() as int) =~= before);
        assert forall|k: int|
            #![trigger struct_methods(*decl)[k]]
            0 <= k < resolved.len() implies id_to_func@[before.len() + k] == resolved[0 + k] by {}
    }
    Ok(TypeDeclaration::Struct(StructType { id, fields, associated_functions: table, is_affine }))
}

/// What is wrong with an interface as declared, if anything: a name
/// under which the file knows no type, else the first method whose
/// signature fails.
pub open spec fn interface_failure(
    names: Seq<(String, TypeID)>,
    decl: InterfaceDeclarationValue,
    provenance: SourceRange,
) -> Option<Failure> {
    match name_index(names, decl.name@) {
        None => Some((TypecheckError::NameNotFound, provenance)),
        Some(at) => methods_failure(
            names,
            interface_methods(decl),
            ExpressionType::InstanceOf(names[at].1),
            decl.associated_functions@.len() as int,
        ),
    }
}

/// The interface as declared, or what is wrong with the declaration;
/// see `interface_failure` and `is_interface_of`. Where nothing is
/// wrong, each method draws the next function identifier of the file,
/// and the signatures of the methods are recorded after those that were
/// there; see `signatures_at`. Where something is wrong, nothing is
/// drawn and nothing recorded.
pub fn fill_in_interface_decl<'a>(
    names: &Vec<(String, TypeID)>,
    module: &mut FileDeclarations,
    id_to_func: &mut Vec<FuncType>,
    decl: &'a InterfaceDeclarationValue,
    provenance: &'a SourceRange,
) -> (r: Result<TypeDeclaration, (TypecheckError, &'a SourceRange)>)
    ensures
        final(module).id == old(module).id,
        final(module).module_id == old(module).module_id,
        final(module).type_id_counter == old(module).type_id_counter,
        final(module).imports == old(module).imports,
        match interface_failure(names@, *decl, *provenance) {
            Some((e, at)) => {
                &&& r matches Err((found, place)) && found == e && *place == at
                &&& final(id_to_func)@ == old(id_to_func)@
                &&& final(module).func_id_counter == old(module).func_id_counter
            },
            None => {
                &&& r matches Ok(TypeDeclaration::Interface(it)) && is_interface_of(
                    it,
                    names@,
                    *decl,
                    old(module).id,
                    old(module).func_id_counter,
                ) && signatures_at(
                    names@,
                    interface_methods(*decl),
                    ExpressionType::InstanceOf(it.id),
                    old(module).id,
                    old(module).func_id_counter,
                    final(id_to_func)@,
                    old(id_to_func)@.len() as int,
                )
                &&& final(id_to_func)@.len() == old(id_to_func)@.len()
                    + decl.associated_functions@.len()
                &&& final(id_to_func)@.subrange(0, old(id_to_func)@.len() as int) == old(
                    id_to_func,
                )@
                &&& final(module).func_id_counter == iter_counter(
                    old(module).func_id_counter,
                    decl.associated_functions@.len() as int,
                )
            },
        },
{
    let id = match find_name(names, &decl.name) {
        Some(at) => names[at].1,
        None => {
            return Err((TypecheckError::NameNotFound, provenance));
        },
    };
    let mut methods: Vec<(&FunctionHeaderValue, bool, &SourceRange)> = Vec::new();
    let mut j: usize = 0;
    while j < decl.associated_functions.len()
        invariant
            0 <= j <= decl.associated_functions@.len(),
            methods@.len() == j,
            forall|k: int|
                #![trigger methods@[k]]
                0 <= k < j ==> *methods@[k].0 == interface_methods(*decl)[k].header
                    && methods@[k].1 == interface_methods(*decl)[k].is_coroutine && *methods@[k].2
                    == interface_methods(*decl)[k].provenance,
        decreases decl.associated_functions@.len() - j,
    {
        let f = &decl.associated_functions[j];
        match &f.0 {
            InterfaceFunction::Required(header) => {
                methods.push((header, false, &f.1));
            },
            InterfaceFunction::Provided(func) => {
                methods.push((&func.header, func.is_coroutine, &f.1));
            },
        }
        j = j + 1;
    }
    let self_ty = ExpressionType::InstanceOf(id);
    let (table, mut funcs, next) = match resolve_methods(
        names,
        module.id,
        module.func_id_counter,
        &methods,
        &self_ty,
        Ghost(interface_methods(*decl)),
    ) {
        Ok(resolved) => resolved,
        Err(e) => {
            return Err(e);
        },
    };
    let ghost before = id_to_func@;
    let ghost resolved = funcs@;
    module.func_id_counter = next;
    id_to_func.append(&mut funcs);
    proof {
        assert(id_to_func@.subrange(0, before.len() as int) =~= before);
        assert forall|k: int|
            #![trigger interface_methods(*decl)[k]]
            0 <= k < resolved.len() implies id_to_func@[before.len() + k] == resolved[0 + k] by {}
    }
    Ok(TypeDeclaration::Interface(InterfaceType { id, associated_functions: table }))
}

/// The name under which a collection offers the operation as a method.
/// The operations that free or decrement are the compiler's own and
/// have none.
pub open spec fn intrinsic_name(f: IntrinsicFunction) -> Seq<char> {
    match f {
        IntrinsicFunction::ArrayLength => "len"@,
        IntrinsicFunction::ArrayPush => "push"@,
        IntrinsicFunction::DictionaryContains => "contains_key"@,
        IntrinsicFunction::DictionaryInsert => "insert"@,
        IntrinsicFunction::RcClone => "clone"@,
        IntrinsicFunction::CellGet => "get"@,
        IntrinsicFunction::CellSet => "set"@,
        _ => Seq::empty(),
    }
}

/// The kind of pointer that the `self` of the method takes.
pub open spec fn intrinsic_self(f: IntrinsicFunction) -> PointerKind {
    match f {
        IntrinsicFunction::ArrayPush => PointerKind::Unique,
        IntrinsicFunction::DictionaryInsert => PointerKind::Unique,
        _ => PointerKind::Shared,
    }
}

/// How many generic parameters the method has.
pub open spec fn intrinsic_arity(f: IntrinsicFunction) -> usize {
    match f {
        IntrinsicFunction::DictionaryContains => 2,
        IntrinsicFunction::DictionaryInsert => 2,
        _ => 1,
    }
}

pub open spec fn generic(i: usize) -> ExpressionType {
    ExpressionType::TypeParameterReference(i)
}

pub open spec fn pointer_to(kind: PointerKind, ty: ExpressionType) -> ExpressionType {
    ExpressionType::Pointer(kind, Box::new(ty))
}

pub open spec fn array_of(ty: ExpressionType) -> ExpressionType {
    ExpressionType::Collection(CollectionType::Array(Box::new(ty)))
}

pub open spec fn dict_of(key: ExpressionType, value: ExpressionType) -> ExpressionType {
    ExpressionType::Collection(CollectionType::Dict(Box::new(key), Box::new(value)))
}

pub open spec fn rc_of(ty: ExpressionType) -> ExpressionType {
    ExpressionType::Collection(CollectionType::ReferenceCounter(Box::new(ty)))
}

pub open spec fn cell_of(ty: ExpressionType) -> ExpressionType {
    ExpressionType::Collection(CollectionType::Cell(Box::new(ty)))
}

/// The parameter types of the method, `self` first, over the generic
/// parameters of the collection.
pub open spec fn intrinsic_params(f: IntrinsicFunction) -> Seq<ExpressionType> {
    match f {
        IntrinsicFunction::ArrayLength => seq![pointer_to(PointerKind::Shared, generic(0))],
        IntrinsicFunction::ArrayPush => seq![
            pointer_to(PointerKind::Unique, array_of(generic(0))),
            generic(0),
        ],
        IntrinsicFunction::DictionaryContains => seq![
            pointer_to(PointerKind::Shared, dict_of(generic(0), generic(1))),
            pointer_to(PointerKind::Shared, generic(0)),
        ],
        IntrinsicFunction::DictionaryInsert => seq![
            pointer_to(PointerKind::Unique, dict_of(generic(0), generic(1))),
            generic(0),
            generic(1),
        ],
        IntrinsicFunction::RcClone => seq![pointer_to(PointerKind::Shared, rc_of(generic(0)))],
        IntrinsicFunction::CellGet => seq![
            pointer_to(PointerKind::Shared, cell_of(generic(0))),
            pointer_to(PointerKind::Unique, generic(0)),
        ],
        IntrinsicFunction::CellSet => seq![
            pointer_to(PointerKind::Shared, cell_of(generic(0))),
            generic(0),
        ],
        _ => Seq::empty(),
    }
}

/// What the method returns.
pub open spec fn intrinsic_result(f: IntrinsicFunction) -> ExpressionType {
    match f {
        IntrinsicFunction::ArrayLength => ExpressionType::Primitive(PrimitiveType::PointerSize),
        IntrinsicFunction::DictionaryContains => ExpressionType::Primitive(PrimitiveType::Bool),
        IntrinsicFunction::RcClone => rc_of(generic(0)),
        _ => ExpressionType::Void,
    }
}

/// The operations that collections offer as methods, in the order in
/// which they are registered.
pub open spec fn registered_intrinsics() -> Seq<IntrinsicFunction> {
    seq![
        IntrinsicFunction::ArrayLength,
        IntrinsicFunction::ArrayPush,
        IntrinsicFunction::DictionaryContains,
        IntrinsicFunction::DictionaryInsert,
        IntrinsicFunction::RcClone,
        IntrinsicFunction::CellGet,
        IntrinsicFunction::CellSet,
    ]
}

/// Whether `func` is the signature of the operation `f` under the
/// identifier `id`.
pub open spec fn is_intrinsic_signature(func: FuncType, f: IntrinsicFunction, id: FunctionID) -> bool {
    &&& func.id == id
    &&& func.is_associated
    &&& !func.is_coroutine
    &&& func.type_param_count == intrinsic_arity(f)
    &&& func.params@ == intrinsic_params(f)
    &&& func.returns == intrinsic_result(f)
    &&& func.provenance.is_none()
}

/// Whether the entry offers the operation `f`, which stands under the
/// identifier `id`, as a method of its name.
pub open spec fn is_intrinsic_entry(entry: (String, CollectionIntrinsic), f: IntrinsicFunction, id: FunctionID) -> bool {
    &&& entry.0@ == intrinsic_name(f)
    &&& entry.1 == (CollectionIntrinsic { intrinsic_fn: f, fn_id: id, ptr_ty: intrinsic_self(f) })
}

fn shared(ty: ExpressionType) -> (r: ExpressionType)
    ensures
        r == pointer_to(PointerKind::Shared, ty),
{
    ExpressionType::Pointer(PointerKind::Shared, Box::new(ty))
}

fn unique(ty: ExpressionType) -> (r: ExpressionType)
    ensures
        r == pointer_to(PointerKind::Unique, ty),
{
    ExpressionType::Pointer(PointerKind::Unique, Box::new(ty))
}

fn parameter(i: usize) -> (r: ExpressionType)
    ensures
        r == generic(i),
{
    ExpressionType::TypeParameterReference(i)
}

fn array(ty: ExpressionType) -> (r: ExpressionType)
    ensures
        r == array_of(ty),
{
    ExpressionType::Collection(CollectionType::Array(Box::new(ty)))
}

fn dict(key: ExpressionType, value: ExpressionType) -> (r: ExpressionType)
    ensures
        r == dict_of(key, value),
{
    ExpressionType::Collection(CollectionType::Dict(Box::new(key), Box::new(value)))
}

fn rc(ty: ExpressionType) -> (r: ExpressionType)
    ensures
        r == rc_of(ty),
{
    ExpressionType::Collection(CollectionType::ReferenceCounter(Box::new(ty)))
}

fn cell(ty: ExpressionType) -> (r: ExpressionType)
    ensures
        r == cell_of(ty),
{
    ExpressionType::Collection(CollectionType::Cell(Box::new(ty)))
}

/// The name, the parameter types and the result of a registered
/// operation.
fn describe_intrinsic(f: IntrinsicFunction) -> (r: (String, Vec<ExpressionType>, ExpressionType))
    requires
        registered_intrinsics().contains(f),
    ensures
        r.0@ == intrinsic_name(f),
        r.1@ == intrinsic_params(f),
        r.2 == intrinsic_result(f),
{
    match f {
        IntrinsicFunction::ArrayLength => (
            String::from_str("len"),
            vec![shared(parameter(0))],
            ExpressionType::Primitive(PrimitiveType::PointerSize),
        ),
        IntrinsicFunction::ArrayPush => (
            String::from_str("push"),
            vec![unique(array(parameter(0))), parameter(0)],
            ExpressionType::Void,
        ),
        IntrinsicFunction::DictionaryContains => (
            String::from_str("contains_key"),
            vec![shared(dict(parameter(0), parameter(1))), shared(parameter(0))],
            ExpressionType::Primitive(PrimitiveType::Bool),
        ),
        IntrinsicFunction::DictionaryInsert => (
            String::from_str("insert"),
            vec![unique(dict(parameter(0), parameter(1))), parameter(0), parameter(1)],
            ExpressionType::Void,
        ),
        IntrinsicFunction::RcClone => (
            String::from_str("clone"),
            vec![shared(rc(parameter(0)))],
            rc(parameter(0)),
        ),
        IntrinsicFunction::CellGet => (
            String::from_str("get"),
            vec![shared(cell(parameter(0))), unique(parameter(0))],
            ExpressionType::Void,
        ),
        IntrinsicFunction::CellSet => (
            String::from_str("set"),
            vec![shared(cell(parameter(0))), parameter(0)],
            ExpressionType::Void,
        ),
        _ => {
            proof {
                let s = registered_intrinsics();
                let i = choose|i: int| 0 <= i < s.len() && s[i] == f;
                assert(s[i] == f);
            }
            (String::from_str(""), Vec::new(), ExpressionType::Void)
        },
    }
}

fn arity_of(f: IntrinsicFunction) -> (r: usize)
    ensures
        r == intrinsic_arity(f),
{
    match f {
        IntrinsicFunction::DictionaryContains => 2,
        IntrinsicFunction::DictionaryInsert => 2,
        _ => 1,
    }
}

fn self_of(f: IntrinsicFunction) -> (r: PointerKind)
    ensures
        r == intrinsic_self(f),
{
    match f {
        IntrinsicFunction::ArrayPush => PointerKind::Unique,
        IntrinsicFunction::DictionaryInsert => PointerKind::Unique,
        _ => PointerKind::Shared,
    }
}

/// Registers one operation of a collection: draws the next function
/// identifier of the module of the intrinsics, puts the operation as a
/// method into `collection_fns`, and records its signature and its
/// identifier in the context, each after what was there.
pub fn add_intrinsic(
    ctx: &mut DeclarationContext,
    collection_fns: &mut Vec<(String, CollectionIntrinsic)>,
    intrinsic_fn: IntrinsicFunction,
) -> (fn_id: FunctionID)
    requires
        registered_intrinsics().contains(intrinsic_fn),
    ensures
        fn_id == FunctionID(
            old(ctx).intrinsic_module.id,
            old(ctx).intrinsic_module.func_id_counter,
        ),
        final(ctx).intrinsic_module.func_id_counter == next_counter(
            old(ctx).intrinsic_module.func_id_counter,
        ),
        final(ctx).intrinsic_module.id == old(ctx).intrinsic_module.id,
        final(ctx).intrinsic_module.module_id == old(ctx).intrinsic_module.module_id,
        final(ctx).intrinsic_module.type_id_counter == old(ctx).intrinsic_module.type_id_counter,
        final(ctx).intrinsic_module.imports == old(ctx).intrinsic_module.imports,
        final(ctx).files == old(ctx).files,
        final(ctx).id_to_decl == old(ctx).id_to_decl,
        final(ctx).array_intrinsics == old(ctx).array_intrinsics,
        final(ctx).dict_intrinsics == old(ctx).dict_intrinsics,
        final(ctx).rc_intrinsics == old(ctx).rc_intrinsics,
        final(ctx).cell_intrinsics == old(ctx).cell_intrinsics,
        final(ctx).extern_function_bindings == old(ctx).extern_function_bindings,
        final(ctx).extern_function_exports == old(ctx).extern_function_exports,
        final(collection_fns)@.len() == old(collection_fns)@.len() + 1,
        forall|k: int|
            0 <= k < old(collection_fns)@.len() ==> final(collection_fns)@[k] == old(
                collection_fns,
            )@[k],
        is_intrinsic_entry(final(collection_fns)@.last(), intrinsic_fn, fn_id),
        final(ctx).id_to_func@.len() == old(ctx).id_to_func@.len() + 1,
        forall|k: int|
            0 <= k < old(ctx).id_to_func@.len() ==> final(ctx).id_to_func@[k] == old(ctx).id_to_func@[k],
        is_intrinsic_signature(final(ctx).id_to_func@.last(), intrinsic_fn, fn_id),
        final(ctx).intrinsic_to_id@ == old(ctx).intrinsic_to_id@.push((intrinsic_fn, fn_id)),
{
    let fn_id = ctx.intrinsic_module.new_func_id();
    let (name, params, result) = describe_intrinsic(intrinsic_fn);
    collection_fns.push(
        (name, CollectionIntrinsic { intrinsic_fn, fn_id, ptr_ty: self_of(intrinsic_fn) }),
    );
    ctx.id_to_func.push(
        FuncType {
            id: fn_id,
            is_associated: true,
            type_param_count: arity_of(intrinsic_fn),
            params,
            returns: result,
            is_coroutine: false,
            provenance: None,
        },
    );
    ctx.intrinsic_to_id.push((intrinsic_fn, fn_id));
    fn_id
}

/// Whether `table` offers the operations of `registered_intrinsics`
/// from position `first` on, `n` of them, in order, where the operation
/// at position `k` stands under the `k`-th identifier drawn.
pub open spec fn offers(
    table: Seq<(String, CollectionIntrinsic)>,
    first: int,
    n: int,
    file: FileID,
    counter: u32,
) -> bool {
    &&& table.len() == n
    &&& forall|j: int|
        #![trigger table[j]]
        0 <= j < n ==> is_intrinsic_entry(
            table[j],
            registered_intrinsics()[first + j],
            FunctionID(file, iter_counter(counter, first + j)),
        )
}

/// Whether `after` is the context `before` with the operations on
/// collections registered: each drew the next function identifier of
/// the module of the intrinsics; the signatures and the identifiers
/// follow what the context held; the four tables of methods are made
/// anew; nothing else has changed.
pub open spec fn intrinsics_added(before: DeclarationContext, after: DeclarationContext) -> bool {
    let file = before.intrinsic_module.id;
    let counter = before.intrinsic_module.func_id_counter;
    &&& after.intrinsic_module.func_id_counter == iter_counter(counter, 7)
    &&& after.intrinsic_module.id == file
    &&& after.intrinsic_module.module_id == before.intrinsic_module.module_id
    &&& after.intrinsic_module.type_id_counter == before.intrinsic_module.type_id_counter
    &&& after.intrinsic_module.imports == before.intrinsic_module.imports
    &&& after.files == before.files
    &&& after.id_to_decl == before.id_to_decl
    &&& after.extern_function_bindings == before.extern_function_bindings
    &&& after.extern_function_exports == before.extern_function_exports
    &&& after.id_to_func@.len() == before.id_to_func@.len() + 7
    &&& after.id_to_func@.subrange(0, before.id_to_func@.len() as int) == before.id_to_func@
    &&& forall|k: int|
        #![trigger registered_intrinsics()[k]]
        0 <= k < 7 ==> is_intrinsic_signature(
            after.id_to_func@[before.id_to_func@.len() + k],
            registered_intrinsics()[k],
            FunctionID(file, iter_counter(counter, k)),
        )
    &&& after.intrinsic_to_id@ == before.intrinsic_to_id@ + Seq::new(
        7,
        |k: int| (registered_intrinsics()[k], FunctionID(file, iter_counter(counter, k))),
    )
    &&& offers(after.array_intrinsics@, 0, 2, file, counter)
    &&& offers(after.dict_intrinsics@, 2, 2, file, counter)
    &&& offers(after.rc_intrinsics@, 4, 1, file, counter)
    &&& offers(after.cell_intrinsics@, 5, 2, file, counter)
}

/// Registers the operations that the compiler provides on collections:
/// on arrays `len` and `push`, on dictionaries `contains_key` and
/// `insert`, on reference counters `clone`, on cells `get` and `set`.
/// Each draws the next function identifier of the module of the
/// intrinsics; the signatures and the identifiers are recorded after
/// what the context held, and the four tables of methods are made anew.
pub fn add_intrinsics(ctx: &mut DeclarationContext)
    ensures
        intrinsics_added(*old(ctx), *final(ctx)),
        final(ctx).intrinsic_module.func_id_counter == iter_counter(
            old(ctx).intrinsic_module.func_id_counter,
            7,
        ),
        final(ctx).intrinsic_module.id == old(ctx).intrinsic_module.id,
        final(ctx).intrinsic_module.module_id == old(ctx).intrinsic_module.module_id,
        final(ctx).intrinsic_module.type_id_counter == old(ctx).intrinsic_module.type_id_counter,
        final(ctx).intrinsic_module.imports == old(ctx).intrinsic_module.imports,
        final(ctx).files == old(ctx).files,
        final(ctx).id_to_decl == old(ctx).id_to_decl,
        final(ctx).extern_function_bindings == old(ctx).extern_function_bindings,
        final(ctx).extern_function_exports == old(ctx).extern_function_exports,
        final(ctx).id_to_func@.len() == old(ctx).id_to_func@.len() + 7,
        forall|k: int|
            0 <= k < old(ctx).id_to_func@.len() ==> final(ctx).id_to_func@[k] == old(ctx).id_to_func@[k],
        forall|k: int|
            #![trigger registered_intrinsics()[k]]
            0 <= k < 7 ==> is_intrinsic_signature(
                final(ctx).id_to_func@[old(ctx).id_to_func@.len() + k],
                registered_intrinsics()[k],
                FunctionID(
                    old(ctx).intrinsic_module.id,
                    iter_counter(old(ctx).intrinsic_module.func_id_counter, k),
                ),
            ),
        final(ctx).intrinsic_to_id@ == old(ctx).intrinsic_to_id@ + Seq::new(
            7,
            |k: int|
                (
                    registered_intrinsics()[k],
                    FunctionID(
                        old(ctx).intrinsic_module.id,
                        iter_counter(old(ctx).intrinsic_module.func_id_counter, k),
                    ),
                ),
        ),
        offers(
            final(ctx).array_intrinsics@,
            0,
            2,
            old(ctx).intrinsic_module.id,
            old(ctx).intrinsic_module.func_id_counter,
        ),
        offers(
            final(ctx).dict_intrinsics@,
            2,
            2,
            old(ctx).intrinsic_module.id,
            old(ctx).intrinsic_module.func_id_counter,
        ),
        offers(
            final(ctx).rc_intrinsics@,
            4,
            1,
            old(ctx).intrinsic_module.id,
            old(ctx).intrinsic_module.func_id_counter,
        ),
        offers(
            final(ctx).cell_intrinsics@,
            5,
            2,
            old(ctx).intrinsic_module.id,
            old(ctx).intrinsic_module.func_id_counter,
        ),
{
    let ghost file = ctx.intrinsic_module.id;
    let ghost c = ctx.intrinsic_module.func_id_counter;
    let ghost base = ctx.id_to_func@.len() as int;
    let ghost ids = ctx.intrinsic_to_id@;
    let ghost order = registered_intrinsics();
    proof {
        reveal_with_fuel(iter_counter, 8);
        assert(order[0] == IntrinsicFunction::ArrayLength);
        assert(order[1] == IntrinsicFunction::ArrayPush);
        assert(order[2] == IntrinsicFunction::DictionaryContains);
        assert(order[3] == IntrinsicFunction::DictionaryInsert);
        assert(order[4] == IntrinsicFunction::RcClone);
        assert(order[5] == IntrinsicFunction::CellGet);
        assert(order[6] == IntrinsicFunction::CellSet);
    }
    let mut array_intrinsics: Vec<(String, CollectionIntrinsic)> = Vec::new();
    add_intrinsic(ctx, &mut array_intrinsics, IntrinsicFunction::ArrayLength);
    add_intrinsic(ctx, &mut array_intrinsics, IntrinsicFunction::ArrayPush);
    let mut dict_intrinsics: Vec<(String, CollectionIntrinsic)> = Vec::new();
    add_intrinsic(ctx, &mut dict_intrinsics, IntrinsicFunction::DictionaryContains);
    add_intrinsic(ctx, &mut dict_intrinsics, IntrinsicFunction::DictionaryInsert);
    let mut rc_intrinsics: Vec<(String, CollectionIntrinsic)> = Vec::new();
    add_intrinsic(ctx, &mut rc_intrinsics, IntrinsicFunction::RcClone);
    let mut cell_intrinsics: Vec<(String, CollectionIntrinsic)> = Vec::new();
    add_intrinsic(ctx, &mut cell_intrinsics, IntrinsicFunction::CellGet);
    add_intrinsic(ctx, &mut cell_intrinsics, IntrinsicFunction::CellSet);
    ctx.array_intrinsics = array_intrinsics;
    ctx.dict_intrinsics = dict_intrinsics;
    ctx.rc_intrinsics = rc_intrinsics;
    ctx.cell_intrinsics = cell_intrinsics;
    proof {
        assert(ctx.intrinsic_to_id@ =~= ids + Seq::new(
            7,
            |k: int| (order[k], FunctionID(file, iter_counter(c, k))),
        ));
        assert(ctx.id_to_func@.subrange(0, base) =~= old(ctx).id_to_func@);
    }
}

/// What the first `n` top-level items of a file export, in order, each
/// under its name, and the type and function counters of the file after
/// them. A struct, a union or an interface draws the next type
/// identifier and is exported as a type; a function or an extern
/// binding draws the next function identifier and is exported as a
/// function. The module itself is the file's first type.
pub open spec fn assigned(items: Seq<AstStatement>, n: int, file: FileID) -> (
    Seq<(Seq<char>, ExpressionType)>,
    u32,
    u32,
)
    decreases n,
{
    if n <= 0 {
        (Seq::empty(), 2, 1)
    } else {
        let (exports, types, funcs) = assigned(items, n - 1, file);
        match items[n - 1].value {
            AstStatementValue::StructDeclaration(d) => (
                exports.push((d.name@, ExpressionType::ReferenceToType(TypeID(file, types)))),
                next_counter(types),
                funcs,
            ),
            AstStatementValue::UnionDeclaration(d) => (
                exports.push((d.name@, ExpressionType::ReferenceToType(TypeID(file, types)))),
                next_counter(types),
                funcs,
            ),
            AstStatementValue::InterfaceDeclaration(d) => (
                exports.push((d.name@, ExpressionType::ReferenceToType(TypeID(file, types)))),
                next_counter(types),
                funcs,
            ),
            AstStatementValue::FunctionDeclaration(d) => (
                exports.push(
                    (d.header.name@, ExpressionType::ReferenceToFunction(FunctionID(file, funcs))),
                ),
                types,
                next_counter(funcs),
            ),
            AstStatementValue::ExternFunctionBinding(h) => (
                exports.push(
                    (h.name@, ExpressionType::ReferenceToFunction(FunctionID(file, funcs))),
                ),
                types,
                next_counter(funcs),
            ),
            _ => (exports, types, funcs),
        }
    }
}

/// The exports as names and types; none of them is a constant.
pub open spec fn plain_exports(exports: Seq<(String, Export)>) -> Seq<(Seq<char>, ExpressionType)> {
    Seq::new(exports.len(), |i: int| (exports[i].0@, exports[i].1.ty))
}

/// The item before the one at `k` that bears the same name, the nearest
/// of them, if there is one: two items of one file may not share a name.
pub open spec fn conflict_at(items: Seq<AstStatement>, k: int) -> Option<int> {
    match items[k].value.spec_declared_name() {
        None => None,
        Some(name) => if exists|j: int|
            0 <= j < k && (#[trigger] items[j]).value.spec_declared_name() == Some(name) {
            Some(
                choose|j: int|
                    0 <= j < k && (#[trigger] items[j]).value.spec_declared_name() == Some(name)
                        && forall|m: int|
                        j < m < k ==> (#[trigger] items[m]).value.spec_declared_name() != Some(
                            name,
                        ),
            )
        } else {
            None
        },
    }
}

/// The nearest item before the one at `k` that bears its name.
pub fn name_conflict(items: &Vec<AstStatement>, k: usize) -> (r: Option<usize>)
    requires
        k < items@.len(),
    ensures
        match r {
            Some(j) => j < k && conflict_at(items@, k as int) == Some(j as int),
            None => conflict_at(items@, k as int).is_none(),
        },
{
    let name = match items[k].value.declared_name() {
        Some(name) => name,
        None => {
            return None;
        },
    };
    let mut j: usize = k;
    while j > 0
        invariant
            0 <= j <= k < items@.len(),
            items@[k as int].value.spec_declared_name() == Some(name@),
            forall|m: int|
                j <= m < k ==> (#[trigger] items@[m]).value.spec_declared_name() != Some(name@),
        decreases j,
    {
        j = j - 1;
        let same = match items[j].value.declared_name() {
            Some(other) => *other == *name,
            None => false,
        };
        if same {
            proof {
                assert(items@[j as int].value.spec_declared_name() == Some(name@));
                let w = choose|w: int|
                    0 <= w < k && (#[trigger] items@[w]).value.spec_declared_name() == Some(name@)
                        && forall|m: int|
                        w < m < k ==> (#[trigger] items@[m]).value.spec_declared_name() != Some(
                            name@,
                        );
                assert(w == j);
            }
            return Some(j);
        }
    }
    None
}

/// The first pass over a file: every declared type and function gets
/// its identifier, and the file's module its exports; see `assigned`.
/// The result holds the declarations of the file with its counters
/// after the pass, the exports, and for each item the nearest item
/// before it that bears the same name.
pub fn assign_ids_to_names(file_id: FileID, source: &ParsedFile) -> (r: (
    FileDeclarations,
    Vec<(String, Export)>,
    Vec<Option<usize>>,
))
    ensures
        r.0.id == file_id,
        r.0.module_id == TypeID(file_id, 1),
        r.0.imports@.len() == 0,
        plain_exports(r.1@) == assigned(
            source.top_level@,
            source.top_level@.len() as int,
            file_id,
        ).0,
        forall|i: int| 0 <= i < r.1@.len() ==> (#[trigger] r.1@[i]).1.constant.is_none(),
        r.0.type_id_counter == assigned(
            source.top_level@,
            source.top_level@.len() as int,
            file_id,
        ).1,
        r.0.func_id_counter == assigned(
            source.top_level@,
            source.top_level@.len() as int,
            file_id,
        ).2,
        r.2@.len() == source.top_level@.len(),
        forall|k: int|
            0 <= k < r.2@.len() ==> match #[trigger] r.2@[k] {
                Some(j) => j < k && conflict_at(source.top_level@, k) == Some(j as int),
                None => conflict_at(source.top_level@, k).is_none(),
            },
{
    let mut module = FileDeclarations::new(file_id);
    let mut exports: Vec<(String, Export)> = Vec::new();
    let mut conflicts: Vec<Option<usize>> = Vec::new();
    let items = &source.top_level;
    let mut k: usize = 0;
    assert(plain_exports(exports@) =~= assigned(items@, 0, file_id).0);
    while k < items.len()
        invariant
            0 <= k <= items@.len(),
            items == &source.top_level,
            module.id == file_id,
            module.module_id == TypeID(file_id, 1),
            module.imports@.len() == 0,
            plain_exports(exports@) == assigned(items@, k as int, file_id).0,
            forall|i: int| 0 <= i < exports@.len() ==> (#[trigger] exports@[i]).1.constant.is_none(),
            module.type_id_counter == assigned(items@, k as int, file_id).1,
            module.func_id_counter == assigned(items@, k as int, file_id).2,
            conflicts@.len() == k,
            forall|m: int|
                0 <= m < k ==> match #[trigger] conflicts@[m] {
                    Some(j) => j < m && conflict_at(items@, m) == Some(j as int),
                    None => conflict_at(items@, m).is_none(),
                },
        decreases items@.len() - k,
    {
        let ghost before = exports@;
        let declared: Option<(&String, ExpressionType)> = match &items[k].value {
            AstStatementValue::StructDeclaration(d) => Some(
                (&d.name, ExpressionType::ReferenceToType(module.new_type_id())),
            ),
            AstStatementValue::UnionDeclaration(d) => Some(
                (&d.name, ExpressionType::ReferenceToType(module.new_type_id())),
            ),
            AstStatementValue::InterfaceDeclaration(d) => Some(
                (&d.name, ExpressionType::ReferenceToType(module.new_type_id())),
            ),
            AstStatementValue::FunctionDeclaration(d) => Some(
                (&d.header.name, ExpressionType::ReferenceToFunction(module.new_func_id())),
            ),
            AstStatementValue::ExternFunctionBinding(h) => Some(
                (&h.name, ExpressionType::ReferenceToFunction(module.new_func_id())),
            ),
            _ => None,
        };
        match declared {
            Some((name, ty)) => {
                exports.push((name.clone(), Export { constant: None, ty }));
                assert(plain_exports(exports@) =~= plain_exports(before).push((name@, ty)));
            },
            None => {},
        }
        conflicts.push(name_conflict(items, k));
        k = k + 1;
    }
    (module, exports, conflicts)
}

/// What the rest of an import path, from its part `i` on, leads to
/// from the declaration `current`, which was reached under `name`. Each
/// part but the last must lead through a module. A constant is
/// imported as it is exported; a function and a type that has no
/// declaration yet must be the last part; at the end of the path the
/// declaration reached is imported as a type.
pub open spec fn import_from(
    ctx: &DeclarationContext,
    path: Seq<String>,
    i: int,
    current: TypeDeclaration,
    name: Seq<char>,
) -> Result<(Seq<char>, Export), TypecheckError>
    decreases path.len() - i,
{
    if i < 0 || i >= path.len() {
        Ok((name, Export { constant: None, ty: ExpressionType::ReferenceToType(current.spec_id()) }))
    } else {
        match current {
            TypeDeclaration::Module(module) => match name_index(module.exports@, path[i]@) {
                None => Err(TypecheckError::ExportNotFound),
                Some(at) => {
                    let export = module.exports@[at].1;
                    if export.constant is Some {
                        Ok((path[i]@, export))
                    } else {
                        match export.ty {
                            ExpressionType::ReferenceToType(id) => match ctx.spec_decl(id) {
                                Some(decl) => import_from(ctx, path, i + 1, decl, path[i]@),
                                None => if i + 1 < path.len() {
                                    Err(TypecheckError::ImportPathMustBeModule)
                                } else {
                                    Ok((path[i]@, export))
                                },
                            },
                            ExpressionType::ReferenceToFunction(_) => if i + 1 < path.len() {
                                Err(TypecheckError::ImportPathMustBeModule)
                            } else {
                                Ok((path[i]@, export))
                            },
                            _ => Err(TypecheckError::IllegalImport),
                        }
                    }
                },
            },
            _ => Err(TypecheckError::ImportPathMustBeModule),
        }
    }
}

/// What an import brings into a file, and under which name. The path
/// begins with `self` and the name of a file of the compilation, and
/// goes on through the exports of that file's module; see
/// `import_from`.
pub open spec fn import_of(ctx: &DeclarationContext, path: Seq<String>) -> Result<
    (Seq<char>, Export),
    TypecheckError,
> {
    if path.len() < 2 || path[0]@ != "self"@ {
        Err(TypecheckError::IllegalImport)
    } else {
        match name_index(ctx.files@, path[1]@) {
            None => Err(TypecheckError::FileNotFound),
            Some(f) => match ctx.spec_decl(ctx.files@[f].1.module_id) {
                None => Err(TypecheckError::FileNotFound),
                Some(decl) => import_from(ctx, path, 2, decl, path[1]@),
            },
        }
    }
}

/// A copy of an export.
pub fn duplicate_export(export: &Export) -> (r: Export)
    ensures
        r == *export,
{
    Export { constant: export.constant, ty: export.ty.duplicate() }
}

/// What an import brings into a file; see `import_of`.
pub fn resolve_import(declarations: &DeclarationContext, path: &Vec<String>) -> (r: Result<
    (String, Export),
    TypecheckError,
>)
    ensures
        match import_of(declarations, path@) {
            Ok((name, export)) => r matches Ok((found, brought)) && found@ == name && brought
                == export,
            Err(e) => r matches Err(found) && found == e,
        },
{
    if path.len() < 2 || !is_word(&path[0], "self") {
        return Err(TypecheckError::IllegalImport);
    }
    let file = match find_name(&declarations.files, &path[1]) {
        Some(f) => &declarations.files[f].1,
        None => {
            return Err(TypecheckError::FileNotFound);
        },
    };
    let mut current: &TypeDeclaration = match declarations.decl(file.module_id) {
        Some(decl) => decl,
        None => {
            return Err(TypecheckError::FileNotFound);
        },
    };
    let mut name: &String = &path[1];
    let mut i: usize = 2;
    while i < path.len()
        invariant
            2 <= i <= path@.len(),
            import_from(declarations, path@, i as int, *current, name@) == import_of(
                declarations,
                path@,
            ),
        decreases path@.len() - i,
    {
        let module = match current {
            TypeDeclaration::Module(module) => module,
            _ => {
                return Err(TypecheckError::ImportPathMustBeModule);
            },
        };
        let at = match find_name(&module.exports, &path[i]) {
            Some(at) => at,
            None => {
                return Err(TypecheckError::ExportNotFound);
            },
        };
        let export = &module.exports[at].1;
        if export.constant.is_some() {
            return Ok((path[i].clone(), duplicate_export(export)));
        }
        match &export.ty {
            ExpressionType::ReferenceToType(id) => match declarations.decl(*id) {
                Some(decl) => {
                    current = decl;
                },
                None => {
                    if i + 1 < path.len() {
                        return Err(TypecheckError::ImportPathMustBeModule);
                    } else {
                        return Ok((path[i].clone(), duplicate_export(export)));
                    }
                },
            },
            ExpressionType::ReferenceToFunction(_) => {
                if i + 1 < path.len() {
                    return Err(TypecheckError::ImportPathMustBeModule);
                } else {
                    return Ok((path[i].clone(), duplicate_export(export)));
                }
            },
            _ => {
                return Err(TypecheckError::IllegalImport);
            },
        }
        name = &path[i];
        i = i + 1;
    }
    Ok((name.clone(), Export { constant: None, ty: current.ref_to() }))
}

/// What is wrong with the imports among the first `n` items, in order.
pub open spec fn import_failures(ctx: &DeclarationContext, items: Seq<AstStatement>, n: int) -> Seq<
    Failure,
>
    decreases n,
{
    if n <= 0 {
        Seq::empty()
    } else {
        let before = import_failures(ctx, items, n - 1);
        match items[n - 1].value {
            AstStatementValue::Import(path) => match import_of(ctx, path@) {
                Err(e) => before.push((e, items[n - 1].provenance)),
                Ok(_) => before,
            },
            _ => before,
        }
    }
}

/// What the imports among the first `n` items bring into the file, in
/// order, each under its name.
pub open spec fn imports_of(ctx: &DeclarationContext, items: Seq<AstStatement>, n: int) -> Seq<
    (Seq<char>, Export),
>
    decreases n,
{
    if n <= 0 {
        Seq::empty()
    } else {
        let before = imports_of(ctx, items, n - 1);
        match items[n - 1].value {
            AstStatementValue::Import(path) => match import_of(ctx, path@) {
                Ok(brought) => before.push(brought),
                Err(_) => before,
            },
            _ => before,
        }
    }
}

/// The entries as names and what stands under them.
pub open spec fn named<X>(entries: Seq<(String, X)>) -> Seq<(Seq<char>, X)> {
    Seq::new(entries.len(), |i: int| (entries[i].0@, entries[i].1))
}

/// Resolves the imports of a file, in order; what fails is reported
/// after the errors that were there.
pub fn resolve_imports(
    ctx: &DeclarationContext,
    source: &ParsedFile,
    errors: &mut Vec<(TypecheckError, SourceRange)>,
) -> (imports: Vec<(String, Export)>)
    ensures
        final(errors)@ == old(errors)@ + import_failures(
            ctx,
            source.top_level@,
            source.top_level@.len() as int,
        ),
        named(imports@) == imports_of(ctx, source.top_level@, source.top_level@.len() as int),
{
    let items = &source.top_level;
    let ghost reported = errors@;
    let mut imports: Vec<(String, Export)> = Vec::new();
    let mut k: usize = 0;
    assert(errors@ =~= reported + import_failures(ctx, items@, 0));
    assert(named(imports@) =~= imports_of(ctx, items@, 0));
    while k < items.len()
        invariant
            0 <= k <= items@.len(),
            items == &source.top_level,
            reported == old(errors)@,
            errors@ == reported + import_failures(ctx, items@, k as int),
            named(imports@) == imports_of(ctx, items@, k as int),
        decreases items@.len() - k,
    {
        let ghost errors_before = errors@;
        let ghost imports_before = imports@;
        match &items[k].value {
            AstStatementValue::Import(path) => match resolve_import(ctx, path) {
                Ok(brought) => {
                    imports.push(brought);
                    assert(named(imports@) =~= named(imports_before).push(
                        import_of(ctx, path@)->Ok_0,
                    ));
                },
                Err(e) => {
                    errors.push((e, items[k].provenance.duplicate()));
                    assert(errors@ =~= reported + import_failures(ctx, items@, k as int).push(
                        (e, items@[k as int].provenance),
                    ));
                },
            },
            _ => {},
        }
        k = k + 1;
    }
    imports
}

/// The types among the first `n` entries, each under its name.
pub open spec fn types_among(entries: Seq<(String, Export)>, n: int) -> Seq<(Seq<char>, TypeID)>
    decreases n,
{
    if n <= 0 {
        Seq::empty()
    } else {
        let before = types_among(entries, n - 1);
        match entries[n - 1].1.ty {
            ExpressionType::ReferenceToType(id) => before.push((entries[n - 1].0@, id)),
            _ => before,
        }
    }
}

/// Adds the types among the entries to the table of names, in order.
pub fn add_type_names(names: &mut Vec<(String, TypeID)>, entries: &Vec<(String, Export)>)
    ensures
        named(final(names)@) == named(old(names)@) + types_among(entries@, entries@.len() as int),
{
    let ghost first = named(names@);
    let mut i: usize = 0;
    assert(named(names@) =~= first + types_among(entries@, 0));
    while i < entries.len()
        invariant
            0 <= i <= entries@.len(),
            first == named(old(names)@),
            named(names@) == first + types_among(entries@, i as int),
        decreases entries@.len() - i,
    {
        let ghost before = names@;
        match &entries[i].1.ty {
            ExpressionType::ReferenceToType(id) => {
                names.push((entries[i].0.clone(), *id));
                assert(named(names@) =~= named(before).push((entries@[i as int].0@, *id)));
            },
            _ => {},
        }
        i = i + 1;
    }
}

/// The types that a file knows by name: those it imports, then those
/// it declares. Where a name stands for two of them, the first counts.
pub fn type_names(imports: &Vec<(String, Export)>, exports: &Vec<(String, Export)>) -> (names: Vec<
    (String, TypeID),
>)
    ensures
        named(names@) == types_among(imports@, imports@.len() as int) + types_among(
            exports@,
            exports@.len() as int,
        ),
{
    let mut names: Vec<(String, TypeID)> = Vec::new();
    assert(named(names@) =~= Seq::<(Seq<char>, TypeID)>::empty());
    add_type_names(&mut names, imports);
    add_type_names(&mut names, exports);
    names
}

/// The identifier under which the file's module exports the function of
/// that name.
pub open spec fn exported_function(exports: Seq<(String, Export)>, name: Seq<char>) -> Option<
    FunctionID,
> {
    match name_index(exports, name) {
        Some(i) => match exports[i].1.ty {
            ExpressionType::ReferenceToFunction(id) => Some(id),
            _ => None,
        },
        None => None,
    }
}

/// The identifier under which the file's module exports the function of
/// that name.
pub fn get_id_for_func_name(exports: &Vec<(String, Export)>, name: &String) -> (r: Option<
    FunctionID,
>)
    ensures
        r == exported_function(exports@, name@),
{
    match find_name(exports, name) {
        Some(i) => match &exports[i].1.ty {
            ExpressionType::ReferenceToFunction(id) => Some(*id),
            _ => None,
        },
        None => None,
    }
}

/// What is wrong with a top-level function as declared, if anything:
/// its module does not export it as a function, or its signature fails.
pub open spec fn function_failure(
    names: Seq<(String, TypeID)>,
    exports: Seq<(String, Export)>,
    header: FunctionHeaderValue,
    provenance: SourceRange,
) -> Option<Failure> {
    match exported_function(exports, header.name@) {
        None => Some((TypecheckError::NameNotFound, provenance)),
        Some(_) => match resolved_signature(names, header, None, provenance) {
            Ok(_) => None,
            Err(e) => Some(e),
        },
    }
}

/// What is wrong with a top-level constant as declared, if anything: it
/// must say its type, and the type must stand for something.
pub open spec fn constant_failure(
    names: Seq<(String, TypeID)>,
    type_hint: Option<AstType>,
    provenance: SourceRange,
) -> Option<Failure> {
    match type_hint {
        None => Some((TypecheckError::TopLevelConstantMustHaveType, provenance)),
        Some(ty) => match resolved_type(names, ty) {
            Ok(_) => None,
            Err(e) => Some(e),
        },
    }
}

/// What is wrong with a declaration of a type or of a function, if
/// anything; nothing is looked for in an item of another kind.
pub open spec fn declaration_failure(
    names: Seq<(String, TypeID)>,
    exports: Seq<(String, Export)>,
    item: AstStatement,
) -> Option<Failure> {
    match item.value {
        AstStatementValue::StructDeclaration(d) => struct_failure(names, d, item.provenance),
        AstStatementValue::UnionDeclaration(d) => union_failure(names, d, item.provenance),
        AstStatementValue::InterfaceDeclaration(d) => interface_failure(
            names,
            d,
            item.provenance,
        ),
        AstStatementValue::FunctionDeclaration(d) => function_failure(
            names,
            exports,
            d.header,
            item.provenance,
        ),
        AstStatementValue::ExternFunctionBinding(h) => function_failure(
            names,
            exports,
            h,
            item.provenance,
        ),
        _ => None,
    }
}

/// What is wrong with the declarations of types and functions among the
/// first `n` items, in order.
pub open spec fn declaration_failures(
    names: Seq<(String, TypeID)>,
    exports: Seq<(String, Export)>,
    items: Seq<AstStatement>,
    n: int,
) -> Seq<Failure>
    decreases n,
{
    if n <= 0 {
        Seq::empty()
    } else {
        let before = declaration_failures(names, exports, items, n - 1);
        match declaration_failure(names, exports, items[n - 1]) {
            Some(e) => before.push(e),
            None => before,
        }
    }
}

/// What is wrong with the constants among the first `n` items, in
/// order.
pub open spec fn constant_failures(names: Seq<(String, TypeID)>, items: Seq<AstStatement>, n: int) -> Seq<
    Failure,
>
    decreases n,
{
    if n <= 0 {
        Seq::empty()
    } else {
        let before = constant_failures(names, items, n - 1);
        match items[n - 1].value {
            AstStatementValue::ConstDeclaration { name, type_hint, variable_id } => match constant_failure(
                names,
                type_hint,
                items[n - 1].provenance,
            ) {
                Some(e) => before.push(e),
                None => before,
            },
            _ => before,
        }
    }
}

/// The constants among the first `n` items whose types resolve, each
/// under its name with its type.
pub open spec fn constants_of(names: Seq<(String, TypeID)>, items: Seq<AstStatement>, n: int) -> Seq<
    (Seq<char>, Export),
>
    decreases n,
{
    if n <= 0 {
        Seq::empty()
    } else {
        let before = constants_of(names, items, n - 1);
        match items[n - 1].value {
            AstStatementValue::ConstDeclaration { name, type_hint: Some(ty), variable_id } => match resolved_type(
                names,
                ty,
            ) {
                Ok(resolved) => before.push(
                    (name@, Export { constant: Some(variable_id), ty: resolved }),
                ),
                Err(_) => before,
            },
            _ => before,
        }
    }
}

/// Resolves the types of the top-level constants of a file, in order;
/// what fails is reported after the errors that were there.
pub fn resolve_constants(
    names: &Vec<(String, TypeID)>,
    source: &ParsedFile,
    errors: &mut Vec<(TypecheckError, SourceRange)>,
) -> (constants: Vec<(String, Export)>)
    ensures
        final(errors)@ == old(errors)@ + constant_failures(
            names@,
            source.top_level@,
            source.top_level@.len() as int,
        ),
        named(constants@) == constants_of(
            names@,
            source.top_level@,
            source.top_level@.len() as int,
        ),
{
    let items = &source.top_level;
    let ghost reported = errors@;
    let mut constants: Vec<(String, Export)> = Vec::new();
    let mut k: usize = 0;
    assert(errors@ =~= reported + constant_failures(names@, items@, 0));
    assert(named(constants@) =~= constants_of(names@, items@, 0));
    while k < items.len()
        invariant
            0 <= k <= items@.len(),
            items == &source.top_level,
            reported == old(errors)@,
            errors@ == reported + constant_failures(names@, items@, k as int),
            named(constants@) == constants_of(names@, items@, k as int),
        decreases items@.len() - k,
    {
        let ghost constants_before = constants@;
        match &items[k].value {
            AstStatementValue::ConstDeclaration { name, type_hint, variable_id } => match type_hint {
                None => {
                    errors.push(
                        (
                            TypecheckError::TopLevelConstantMustHaveType,
                            items[k].provenance.duplicate(),
                        ),
                    );
                    assert(errors@ =~= reported + constant_failures(names@, items@, k as int).push(
                        (
                            TypecheckError::TopLevelConstantMustHaveType,
                            items@[k as int].provenance,
                        ),
                    ));
                },
                Some(ty) => match resolve_type_expr(names, ty) {
                    Ok(resolved) => {
                        constants.push(
                            (
                                name.clone(),
                                Export { constant: Some(*variable_id), ty: resolved },
                            ),
                        );
                        assert(named(constants@) =~= named(constants_before).push(
                            (name@, Export { constant: Some(*variable_id), ty: resolved }),
                        ));
                    },
                    Err((e, at)) => {
                        errors.push((e, at.duplicate()));
                        assert(errors@ =~= reported + constant_failures(
                            names@,
                            items@,
                            k as int,
                        ).push((e, *at)));
                    },
                },
            },
            _ => {},
        }
        k = k + 1;
    }
    constants
}

/// Whether `decl` is the type that the item declares, where the item's
/// methods draw the function identifiers of the file `file` from
/// `counter` on.
pub open spec fn is_declaration_of(
    decl: TypeDeclaration,
    names: Seq<(String, TypeID)>,
    item: AstStatement,
    file: FileID,
    counter: u32,
) -> bool {
    match (decl, item.value) {
        (TypeDeclaration::Struct(st), AstStatementValue::StructDeclaration(d)) => is_struct_of(
            st,
            names,
            d,
            file,
            counter,
        ),
        (TypeDeclaration::Union(un), AstStatementValue::UnionDeclaration(d)) => is_union_of(
            un,
            names,
            d,
        ),
        (
            TypeDeclaration::Interface(it),
            AstStatementValue::InterfaceDeclaration(d),
        ) => is_interface_of(it, names, d, file, counter),
        _ => false,
    }
}

/// Whether the item declares a type.
pub open spec fn declares_type(item: AstStatement) -> bool {
    item.value is StructDeclaration || item.value is UnionDeclaration
        || item.value is InterfaceDeclaration
}

/// How many function identifiers the item draws: one for each method of
/// a struct or of an interface with which nothing is wrong.
pub open spec fn item_draws(
    names: Seq<(String, TypeID)>,
    exports: Seq<(String, Export)>,
    item: AstStatement,
) -> int {
    if declaration_failure(names, exports, item).is_some() {
        0
    } else {
        match item.value {
            AstStatementValue::StructDeclaration(d) => d.associated_functions@.len() as int,
            AstStatementValue::InterfaceDeclaration(d) => d.associated_functions@.len() as int,
            _ => 0,
        }
    }
}

/// How many signatures the item records: one for each method of a
/// struct or of an interface, one for a function or an extern binding;
/// none where something is wrong with the item.
pub open spec fn item_signatures(
    names: Seq<(String, TypeID)>,
    exports: Seq<(String, Export)>,
    item: AstStatement,
) -> int {
    if declaration_failure(names, exports, item).is_some() {
        0
    } else {
        match item.value {
            AstStatementValue::StructDeclaration(d) => d.associated_functions@.len() as int,
            AstStatementValue::InterfaceDeclaration(d) => d.associated_functions@.len() as int,
            AstStatementValue::FunctionDeclaration(_) => 1,
            AstStatementValue::ExternFunctionBinding(_) => 1,
            _ => 0,
        }
    }
}

/// How many function identifiers the first `k` items draw.
pub open spec fn drawn_before(
    names: Seq<(String, TypeID)>,
    exports: Seq<(String, Export)>,
    items: Seq<AstStatement>,
    k: int,
) -> int
    decreases k,
{
    if k <= 0 {
        0
    } else {
        drawn_before(names, exports, items, k - 1) + item_draws(names, exports, items[k - 1])
    }
}

/// How many signatures the first `k` items record.
pub open spec fn signatures_before(
    names: Seq<(String, TypeID)>,
    exports: Seq<(String, Export)>,
    items: Seq<AstStatement>,
    k: int,
) -> int
    decreases k,
{
    if k <= 0 {
        0
    } else {
        signatures_before(names, exports, items, k - 1) + item_signatures(
            names,
            exports,
            items[k - 1],
        )
    }
}

/// Neither count is negative.
pub proof fn lemma_counts_nonnegative(
    names: Seq<(String, TypeID)>,
    exports: Seq<(String, Export)>,
    items: Seq<AstStatement>,
    k: int,
)
    ensures
        drawn_before(names, exports, items, k) >= 0,
        signatures_before(names, exports, items, k) >= 0,
    decreases k,
{
    if k > 0 {
        lemma_counts_nonnegative(names, exports, items, k - 1);
    }
}

/// Whether `func` is the signature of the top-level function as
/// written, under the identifier that the module exports it by.
pub open spec fn is_function_signature(
    names: Seq<(String, TypeID)>,
    exports: Seq<(String, Export)>,
    header: FunctionHeaderValue,
    is_coroutine: bool,
    provenance: SourceRange,
    func: FuncType,
) -> bool {
    exported_function(exports, header.name@) matches Some(id) && (resolved_signature(
        names,
        header,
        None,
        provenance,
    ) matches Ok(shape) && is_signature(func, id, shape, false, is_coroutine))
}

/// Whether what the item records stands among `funcs` from position
/// `base` on, where its methods draw the function identifiers of `file`
/// from `counter` on: the signatures of the methods of a struct or of an
/// interface, in the order written; the signature of a function or of
/// an extern binding. An item with which something is wrong records
/// nothing.
pub open spec fn item_recorded(
    names: Seq<(String, TypeID)>,
    exports: Seq<(String, Export)>,
    item: AstStatement,
    file: FileID,
    counter: u32,
    funcs: Seq<FuncType>,
    base: int,
) -> bool {
    declaration_failure(names, exports, item).is_some() || match item.value {
        AstStatementValue::StructDeclaration(d) => name_index(names, d.name@) matches Some(at)
            && signatures_at(
            names,
            struct_methods(d),
            ExpressionType::InstanceOf(names[at].1),
            file,
            counter,
            funcs,
            base,
        ),
        AstStatementValue::InterfaceDeclaration(d) => name_index(names, d.name@) matches Some(at)
            && signatures_at(
            names,
            interface_methods(d),
            ExpressionType::InstanceOf(names[at].1),
            file,
            counter,
            funcs,
            base,
        ),
        AstStatementValue::FunctionDeclaration(d) => 0 <= base < funcs.len()
            && is_function_signature(
            names,
            exports,
            d.header,
            d.is_coroutine,
            item.provenance,
            funcs[base],
        ),
        AstStatementValue::ExternFunctionBinding(h) => 0 <= base < funcs.len()
            && is_function_signature(names, exports, h, false, item.provenance, funcs[base]),
        _ => true,
    }
}

/// What an item recorded among `funcs` it has recorded among `funcs`
/// followed by more.
pub proof fn lemma_item_recorded_stays(
    names: Seq<(String, TypeID)>,
    exports: Seq<(String, Export)>,
    item: AstStatement,
    file: FileID,
    counter: u32,
    funcs: Seq<FuncType>,
    longer: Seq<FuncType>,
    base: int,
)
    requires
        item_recorded(names, exports, item, file, counter, funcs, base),
        funcs.len() <= longer.len(),
        longer.subrange(0, funcs.len() as int) == funcs,
    ensures
        item_recorded(names, exports, item, file, counter, longer, base),
{
    if declaration_failure(names, exports, item).is_none() {
        match item.value {
            AstStatementValue::StructDeclaration(d) => {
                let at = name_index(names, d.name@).unwrap();
                lemma_signatures_stay(
                    names,
                    struct_methods(d),
                    ExpressionType::InstanceOf(names[at].1),
                    file,
                    counter,
                    funcs,
                    longer,
                    base,
                );
            },
            AstStatementValue::InterfaceDeclaration(d) => {
                let at = name_index(names, d.name@).unwrap();
                lemma_signatures_stay(
                    names,
                    interface_methods(d),
                    ExpressionType::InstanceOf(names[at].1),
                    file,
                    counter,
                    funcs,
                    longer,
                    base,
                );
            },
            AstStatementValue::FunctionDeclaration(d) => {
                assert(longer.subrange(0, funcs.len() as int)[base] == longer[base]);
            },
            AstStatementValue::ExternFunctionBinding(h) => {
                assert(longer.subrange(0, funcs.len() as int)[base] == longer[base]);
            },
            _ => {},
        }
    }
}

/// Whether the slot holds what the item at `k` declares: the type that
/// it declares, where it declares one and nothing is wrong with it, else
/// nothing.
pub open spec fn slot_filled(
    slot: Option<TypeDeclaration>,
    names: Seq<(String, TypeID)>,
    exports: Seq<(String, Export)>,
    items: Seq<AstStatement>,
    k: int,
    file: FileID,
    counter: u32,
) -> bool {
    match slot {
        Some(decl) => declaration_failure(names, exports, items[k]).is_none() && is_declaration_of(
            decl,
            names,
            items[k],
            file,
            iter_counter(counter, drawn_before(names, exports, items, k)),
        ),
        None => !declares_type(items[k]) || declaration_failure(names, exports, items[k]).is_some(),
    }
}

/// Whether the item at `k` has recorded its signatures among `funcs`,
/// after the `base` that were there and those of the items before it.
pub open spec fn recorded_at(
    names: Seq<(String, TypeID)>,
    exports: Seq<(String, Export)>,
    items: Seq<AstStatement>,
    k: int,
    file: FileID,
    counter: u32,
    funcs: Seq<FuncType>,
    base: int,
) -> bool {
    item_recorded(
        names,
        exports,
        items[k],
        file,
        iter_counter(counter, drawn_before(names, exports, items, k)),
        funcs,
        base + signatures_before(names, exports, items, k),
    )
}

/// The second pass over the declarations of a file: every struct, union
/// and interface is filled in, and the signature of every function and
/// method is recorded after those that were there, in the order of the
/// items; see `recorded_at`. The result holds, for each item, the type
/// that it declares, where it declares one and nothing is wrong with
/// it; see `slot_filled`. What is wrong is reported after the errors
/// that were there, in the order of the items.
pub fn fill_in_declarations(
    names: &Vec<(String, TypeID)>,
    module: &mut FileDeclarations,
    id_to_func: &mut Vec<FuncType>,
    exports: &Vec<(String, Export)>,
    source: &ParsedFile,
    errors: &mut Vec<(TypecheckError, SourceRange)>,
) -> (declared: Vec<Option<TypeDeclaration>>)
    ensures
        final(module).id == old(module).id,
        final(module).module_id == old(module).module_id,
        final(module).type_id_counter == old(module).type_id_counter,
        final(module).imports == old(module).imports,
        final(module).func_id_counter == iter_counter(
            old(module).func_id_counter,
            drawn_before(names@, exports@, source.top_level@, source.top_level@.len() as int),
        ),
        final(id_to_func)@.len() == old(id_to_func)@.len() + signatures_before(
            names@,
            exports@,
            source.top_level@,
            source.top_level@.len() as int,
        ),
        final(id_to_func)@.subrange(0, old(id_to_func)@.len() as int) == old(id_to_func)@,
        forall|k: int|
            0 <= k < source.top_level@.len() ==> #[trigger] recorded_at(
                names@,
                exports@,
                source.top_level@,
                k,
                old(module).id,
                old(module).func_id_counter,
                final(id_to_func)@,
                old(id_to_func)@.len() as int,
            ),
        final(errors)@ == old(errors)@ + declaration_failures(
            names@,
            exports@,
            source.top_level@,
            source.top_level@.len() as int,
        ),
        declared@.len() == source.top_level@.len(),
        forall|k: int|
            0 <= k < declared@.len() ==> slot_filled(
                #[trigger] declared@[k],
                names@,
                exports@,
                source.top_level@,
                k,
                old(module).id,
                old(module).func_id_counter,
            ),
{
    let items = &source.top_level;
    let ghost reported = errors@;
    let ghost funcs = id_to_func@;
    let ghost base = id_to_func@.len() as int;
    let ghost file = module.id;
    let ghost counter = module.func_id_counter;
    let mut declared: Vec<Option<TypeDeclaration>> = Vec::new();
    let mut k: usize = 0;
    assert(errors@ =~= reported + declaration_failures(names@, exports@, items@, 0));
    assert(id_to_func@.subrange(0, base) =~= funcs);
    while k < items.len()
        invariant
            0 <= k <= items@.len(),
            items == &source.top_level,
            reported == old(errors)@,
            funcs == old(id_to_func)@,
            base == funcs.len(),
            file == old(module).id,
            counter == old(module).func_id_counter,
            module.id == old(module).id,
            module.module_id == old(module).module_id,
            module.type_id_counter == old(module).type_id_counter,
            module.imports == old(module).imports,
            module.func_id_counter == iter_counter(
                counter,
                drawn_before(names@, exports@, items@, k as int),
            ),
            id_to_func@.len() == base + signatures_before(names@, exports@, items@, k as int),
            id_to_func@.subrange(0, base) == funcs,
            forall|m: int|
                0 <= m < k ==> #[trigger] recorded_at(
                    names@,
                    exports@,
                    items@,
                    m,
                    file,
                    counter,
                    id_to_func@,
                    base,
                ),
            errors@ == reported + declaration_failures(names@, exports@, items@, k as int),
            declared@.len() == k,
            forall|m: int|
                0 <= m < k ==> slot_filled(
                    #[trigger] declared@[m],
                    names@,
                    exports@,
                    items@,
                    m,
                    file,
                    counter,
                ),
        decreases items@.len() - k,
    {
        let ghost funcs_before = id_to_func@;
        let ghost declared_before = declared@;
        let ghost drawn = drawn_before(names@, exports@, items@, k as int);
        let ghost recorded = signatures_before(names@, exports@, items@, k as int);
        proof {
            lemma_counts_nonnegative(names@, exports@, items@, k as int);
            lemma_iter_counter_adds(counter, drawn, item_draws(names@, exports@, items@[k as int]));
        }
        let item = &items[k];
        let outcome: Result<Option<TypeDeclaration>, (TypecheckError, &SourceRange)> =
            match &item.value {
            AstStatementValue::StructDeclaration(d) => match fill_in_struct_info(
                names,
                module,
                id_to_func,
                d,
                &item.provenance,
            ) {
                Ok(decl) => Ok(Some(decl)),
                Err(e) => Err(e),
            },
            AstStatementValue::UnionDeclaration(d) => match fill_in_union_decl(
                names,
                d,
                &item.provenance,
            ) {
                Ok(decl) => Ok(Some(decl)),
                Err(e) => Err(e),
            },
            AstStatementValue::InterfaceDeclaration(d) => match fill_in_interface_decl(
                names,
                module,
                id_to_func,
                d,
                &item.provenance,
            ) {
                Ok(decl) => Ok(Some(decl)),
                Err(e) => Err(e),
            },
            AstStatementValue::FunctionDeclaration(d) => match get_id_for_func_name(
                exports,
                &d.header.name,
            ) {
                None => Err((TypecheckError::NameNotFound, &item.provenance)),
                Some(id) => match fill_in_fn_decl(names, id, d, false, &item.provenance, None) {
                    Ok(func) => {
                        id_to_func.push(func);
                        Ok(None)
                    },
                    Err(e) => Err(e),
                },
            },
            AstStatementValue::ExternFunctionBinding(h) => match get_id_for_func_name(
                exports,
                &h.name,
            ) {
                None => Err((TypecheckError::NameNotFound, &item.provenance)),
                Some(id) => match fill_in_fn_header(
                    names,
                    id,
                    h,
                    false,
                    false,
                    &item.provenance,
                    None,
                ) {
                    Ok(func) => {
                        id_to_func.push(func);
                        Ok(None)
                    },
                    Err(e) => Err(e),
                },
            },
            _ => Ok(None),
        };
        proof {
            assert(id_to_func@.len() == funcs_before.len() + item_signatures(
                names@,
                exports@,
                items@[k as int],
            ));
            assert(id_to_func@.subrange(0, funcs_before.len() as int) =~= funcs_before);
            assert(id_to_func@.subrange(0, base) =~= funcs) by {
                assert forall|m: int| 0 <= m < base implies id_to_func@[m] == funcs[m] by {
                    assert(id_to_func@.subrange(0, funcs_before.len() as int)[m] == id_to_func@[m]);
                    assert(funcs_before.subrange(0, base)[m] == funcs_before[m]);
                }
            }
            assert(item_recorded(
                names@,
                exports@,
                items@[k as int],
                file,
                iter_counter(counter, drawn),
                id_to_func@,
                base + recorded,
            ));
            assert forall|m: int| 0 <= m < k + 1 implies #[trigger] recorded_at(
                names@,
                exports@,
                items@,
                m,
                file,
                counter,
                id_to_func@,
                base,
            ) by {
                if m < k {
                    assert(recorded_at(names@, exports@, items@, m, file, counter, funcs_before, base));
                    lemma_item_recorded_stays(
                        names@,
                        exports@,
                        items@[m],
                        file,
                        iter_counter(counter, drawn_before(names@, exports@, items@, m)),
                        funcs_before,
                        id_to_func@,
                        base + signatures_before(names@, exports@, items@, m),
                    );
                }
            }
        }
        match outcome {
            Ok(decl) => {
                declared.push(decl);
            },
            Err((e, at)) => {
                errors.push((e, at.duplicate()));
                declared.push(None);
                assert(errors@ =~= reported + declaration_failures(
                    names@,
                    exports@,
                    items@,
                    k as int,
                ).push((e, *at)));
            },
        }
        proof {
            assert forall|m: int| 0 <= m < k + 1 implies slot_filled(
                #[trigger] declared@[m],
                names@,
                exports@,
                items@,
                m,
                file,
                counter,
            ) by {
                if m < k {
                    assert(declared@[m] == declared_before[m]);
                }
            }
        }
        k = k + 1;
    }
    declared
}

/// A copy of a list of exports, followed by the entries of `more`.
pub fn joined_exports(exports: &Vec<(String, Export)>, more: Vec<(String, Export)>) -> (r: Vec<
    (String, Export),
>)
    ensures
        r@ == exports@ + more@,
{
    let mut out: Vec<(String, Export)> = Vec::new();
    let mut i: usize = 0;
    while i < exports.len()
        invariant
            0 <= i <= exports@.len(),
            out@ == exports@.subrange(0, i as int),
        decreases exports@.len() - i,
    {
        out.push((exports[i].0.clone(), duplicate_export(&exports[i].1)));
        i = i + 1;
        assert(out@ =~= exports@.subrange(0, i as int));
    }
    assert(exports@.subrange(0, exports@.len() as int) =~= exports@);
    let mut rest = more;
    out.append(&mut rest);
    out
}

impl DeclarationContext {
    /// Where the declaration with the identifier `id` stands.
    pub fn decl_position(&self, id: TypeID) -> (r: Option<usize>)
        ensures
            match r {
                Some(i) => decl_index(self.id_to_decl@, id) == Some(i as int) && i
                    < self.id_to_decl@.len(),
                None => decl_index(self.id_to_decl@, id).is_none(),
            },
    {
        let mut i: usize = 0;
        while i < self.id_to_decl.len()
            invariant
                0 <= i <= self.id_to_decl.len(),
                forall|k: int| 0 <= k < i ==> self.id_to_decl@[k].spec_id() != id,
            decreases self.id_to_decl.len() - i,
        {
            if self.id_to_decl[i].id() == id {
                proof {
                    lemma_decl_index(self.id_to_decl@, id);
                }
                return Some(i);
            }
            i = i + 1;
        }
        proof {
            lemma_decl_index(self.id_to_decl@, id);
        }
        None
    }
}

/// Whether the type is among those that were filled in.
pub open spec fn filled_in(decl: TypeDeclaration, declared: Seq<Option<TypeDeclaration>>) -> bool {
    exists|m: int| 0 <= m < declared.len() && #[trigger] declared[m] == Some(decl)
}

/// The types among the first `n` slots that were filled in, in the order
/// of the slots; a slot that holds nothing gives nothing.
pub open spec fn filled_types(declared: Seq<Option<TypeDeclaration>>, n: int) -> Seq<
    TypeDeclaration,
>
    decreases n,
{
    if n <= 0 {
        Seq::empty()
    } else {
        let before = filled_types(declared, n - 1);
        match declared[n - 1] {
            Some(decl) => before.push(decl),
            None => before,
        }
    }
}

/// Every type among the first `n` that were filled in is one of the
/// slots, and there are no more of them than slots.
pub proof fn lemma_filled_types_are_filled_in(declared: Seq<Option<TypeDeclaration>>, n: int)
    requires
        0 <= n <= declared.len(),
    ensures
        filled_types(declared, n).len() <= n,
        forall|i: int|
            0 <= i < filled_types(declared, n).len() ==> filled_in(
                #[trigger] filled_types(declared, n)[i],
                declared,
            ),
    decreases n,
{
    if n > 0 {
        lemma_filled_types_are_filled_in(declared, n - 1);
        let before = filled_types(declared, n - 1);
        match declared[n - 1] {
            Some(decl) => {
                assert forall|i: int| 0 <= i < before.push(decl).len() implies filled_in(
                    #[trigger] before.push(decl)[i],
                    declared,
                ) by {
                    if i < before.len() {
                        assert(before.push(decl)[i] == before[i]);
                    } else {
                        assert(declared[n - 1] == Some(before.push(decl)[i]));
                    }
                }
            },
            None => {},
        }
    }
}

/// Puts the types that were filled in after the declarations that were
/// there, in the order of their slots; a slot that holds nothing adds
/// nothing. The declarations that were there stay as they are.
pub fn declare_all(id_to_decl: &mut Vec<TypeDeclaration>, declared: Vec<Option<TypeDeclaration>>)
    ensures
        final(id_to_decl)@ == old(id_to_decl)@ + filled_types(declared@, declared@.len() as int),
        old(id_to_decl)@.len() <= final(id_to_decl)@.len(),
        final(id_to_decl)@.subrange(0, old(id_to_decl)@.len() as int) == old(id_to_decl)@,
        forall|i: int|
            old(id_to_decl)@.len() <= i < final(id_to_decl)@.len() ==> filled_in(
                #[trigger] final(id_to_decl)@[i],
                declared@,
            ),
{
    let ghost base = id_to_decl@;
    let ghost filled = declared@;
    let mut slots = declared;
    let n: usize = slots.len();
    let mut k: usize = 0;
    assert(id_to_decl@ =~= base + filled_types(filled, 0));
    while k < n
        invariant
            0 <= k <= n,
            n == slots@.len(),
            n == filled.len(),
            filled == declared@,
            base == old(id_to_decl)@,
            forall|m: int| k <= m < n ==> slots@[m] == filled[m],
            id_to_decl@ == base + filled_types(filled, k as int),
        decreases n - k,
    {
        let ghost before = id_to_decl@;
        let mut slot: Option<TypeDeclaration> = None;
        slots.set_and_swap(k, &mut slot);
        match slot {
            Some(decl) => {
                id_to_decl.push(decl);
                assert(id_to_decl@ =~= base + filled_types(filled, k as int).push(decl));
            },
            None => {},
        }
        k = k + 1;
    }
    proof {
        let added = filled_types(filled, n as int);
        lemma_filled_types_are_filled_in(filled, n as int);
        assert(id_to_decl@.subrange(0, base.len() as int) =~= base);
        assert forall|i: int| base.len() <= i < id_to_decl@.len() implies filled_in(
            #[trigger] id_to_decl@[i],
            filled,
        ) by {
            assert(id_to_decl@[i] == added[i - base.len()]);
        }
    }
}

/// What is wrong in the second pass over a file, given the types that
/// the file knows by name and what its module exports: first with its
/// imports, then with its declarations of types and functions, then
/// with its constants.
pub open spec fn file_failures(
    ctx: &DeclarationContext,
    names: Seq<(String, TypeID)>,
    exports: Seq<(String, Export)>,
    items: Seq<AstStatement>,
) -> Seq<Failure> {
    import_failures(ctx, items, items.len() as int) + declaration_failures(
        names,
        exports,
        items,
        items.len() as int,
    ) + constant_failures(names, items, items.len() as int)
}

/// The functions among the first `n` items that are bound to functions
/// outside the program, each under its name with the identifier that
/// the module exports it under.
pub open spec fn extern_bindings_of(exports: Seq<(String, Export)>, items: Seq<AstStatement>, n: int) -> Seq<
    (Seq<char>, FunctionID),
>
    decreases n,
{
    if n <= 0 {
        Seq::empty()
    } else {
        let before = extern_bindings_of(exports, items, n - 1);
        match items[n - 1].value {
            AstStatementValue::ExternFunctionBinding(h) => match exported_function(
                exports,
                h.name@,
            ) {
                Some(id) => before.push((h.name@, id)),
                None => before,
            },
            _ => before,
        }
    }
}

/// The functions among the first `n` items that the program offers to
/// the outside, each under its name with the identifier that the module
/// exports it under.
pub open spec fn extern_exports_of(exports: Seq<(String, Export)>, items: Seq<AstStatement>, n: int) -> Seq<
    (Seq<char>, FunctionID),
>
    decreases n,
{
    if n <= 0 {
        Seq::empty()
    } else {
        let before = extern_exports_of(exports, items, n - 1);
        match items[n - 1].value {
            AstStatementValue::FunctionDeclaration(d) => if d.is_extern {
                match exported_function(exports, d.header.name@) {
                    Some(id) => before.push((d.header.name@, id)),
                    None => before,
                }
            } else {
                before
            },
            _ => before,
        }
    }
}

/// Records the functions of a file that are bound to functions outside
/// the program, and those that the program offers to the outside, each
/// after those that were recorded.
pub fn record_externs(
    exports: &Vec<(String, Export)>,
    source: &ParsedFile,
    bindings: &mut Vec<(String, FunctionID)>,
    offered: &mut Vec<(String, FunctionID)>,
)
    ensures
        named(final(bindings)@) == named(old(bindings)@) + extern_bindings_of(
            exports@,
            source.top_level@,
            source.top_level@.len() as int,
        ),
        named(final(offered)@) == named(old(offered)@) + extern_exports_of(
            exports@,
            source.top_level@,
            source.top_level@.len() as int,
        ),
{
    let items = &source.top_level;
    let ghost bound = named(bindings@);
    let ghost given = named(offered@);
    let mut k: usize = 0;
    assert(named(bindings@) =~= bound + extern_bindings_of(exports@, items@, 0));
    assert(named(offered@) =~= given + extern_exports_of(exports@, items@, 0));
    while k < items.len()
        invariant
            0 <= k <= items@.len(),
            items == &source.top_level,
            bound == named(old(bindings)@),
            given == named(old(offered)@),
            named(bindings@) == bound + extern_bindings_of(exports@, items@, k as int),
            named(offered@) == given + extern_exports_of(exports@, items@, k as int),
        decreases items@.len() - k,
    {
        let ghost bindings_before = bindings@;
        let ghost offered_before = offered@;
        match &items[k].value {
            AstStatementValue::ExternFunctionBinding(h) => match get_id_for_func_name(
                exports,
                &h.name,
            ) {
                Some(id) => {
                    bindings.push((h.name.clone(), id));
                    assert(named(bindings@) =~= named(bindings_before).push((h.name@, id)));
                },
                None => {},
            },
            AstStatementValue::FunctionDeclaration(d) => {
                if d.is_extern {
                    match get_id_for_func_name(exports, &d.header.name) {
                        Some(id) => {
                            offered.push((d.header.name.clone(), id));
                            assert(named(offered@) =~= named(offered_before).push(
                                (d.header.name@, id),
                            ));
                        },
                        None => {},
                    }
                }
            },
            _ => {},
        }
        k = k + 1;
    }
}

/// Whether `after` is the context `before` with the file at
/// `file_index` filled in, where `names` are the types that the file
/// knows by name, those it imports and then those it declares, and
/// `declared` holds for each item the type that it declares; see
/// `slot_filled`.
///
/// The imports of the file are recorded. What is wrong is reported after
/// the errors that were there; see `file_failures`. The module of the
/// file exports its constants after what it exported, and no other
/// declaration that was there has changed. The types that the items
/// declare follow the declarations that were there, in the order of the
/// items. The signatures of the functions and methods follow those that
/// were there, in the order of the items; see `recorded_at`. The
/// function counter of the file has gone on by the methods that drew an
/// identifier. The functions that are bound to or offered to the
/// outside are recorded.
pub open spec fn file_filled(
    before: DeclarationContext,
    after: DeclarationContext,
    file_index: int,
    items: Seq<AstStatement>,
    reported: Seq<Failure>,
    errors: Seq<Failure>,
    names: Seq<(String, TypeID)>,
    declared: Seq<Option<TypeDeclaration>>,
) -> bool {
    let file = before.files@[file_index].1;
    let at = decl_index(before.id_to_decl@, file.module_id).unwrap();
    let module = before.id_to_decl@[at]->Module_0;
    let exports = module.exports@;
    let imports = after.files@[file_index].1.imports@;
    let n = items.len() as int;
    &&& named(names) == types_among(imports, imports.len() as int) + types_among(
        exports,
        exports.len() as int,
    )
    &&& named(imports) == imports_of(&before, items, n)
    &&& errors == reported + file_failures(&before, names, exports, items)
    &&& forall|i: int|
        0 <= i < before.id_to_decl@.len() && i != at ==> after.id_to_decl@[i]
            == before.id_to_decl@[i]
    &&& after.id_to_decl@[at] matches TypeDeclaration::Module(extended) && extended.id
        == module.id && named(extended.exports@) == named(exports) + constants_of(names, items, n)
    &&& declared.len() == n
    &&& forall|k: int|
        0 <= k < n ==> slot_filled(
            #[trigger] declared[k],
            names,
            exports,
            items,
            k,
            file.id,
            file.func_id_counter,
        )
    &&& before.id_to_decl@.len() <= after.id_to_decl@.len()
    &&& after.id_to_decl@.subrange(
        before.id_to_decl@.len() as int,
        after.id_to_decl@.len() as int,
    ) == filled_types(declared, n)
    &&& after.id_to_func@.len() == before.id_to_func@.len() + signatures_before(
        names,
        exports,
        items,
        n,
    )
    &&& after.id_to_func@.subrange(0, before.id_to_func@.len() as int) == before.id_to_func@
    &&& forall|k: int|
        0 <= k < n ==> #[trigger] recorded_at(
            names,
            exports,
            items,
            k,
            file.id,
            file.func_id_counter,
            after.id_to_func@,
            before.id_to_func@.len() as int,
        )
    &&& after.files@[file_index].1.func_id_counter == iter_counter(
        file.func_id_counter,
        drawn_before(names, exports, items, n),
    )
    &&& named(after.extern_function_bindings@) == named(before.extern_function_bindings@)
        + extern_bindings_of(exports, items, n)
    &&& named(after.extern_function_exports@) == named(before.extern_function_exports@)
        + extern_exports_of(exports, items, n)
}

/// Whether `after` is the context `before` after the second pass over
/// the file at `file_index`. No other file has changed, the file keeps
/// its name, its identifiers and its type counter, and the intrinsics
/// are as they were. Where the module of the file is declared, the file
/// is filled in; see `file_filled`. Where it is not, nothing is done but
/// to report, at no place, that the file is not found.
pub open spec fn file_passed(
    before: DeclarationContext,
    after: DeclarationContext,
    file_index: int,
    items: Seq<AstStatement>,
    reported: Seq<Failure>,
    errors: Seq<Failure>,
) -> bool {
    &&& after.files@.len() == before.files@.len()
    &&& forall|f: int|
        0 <= f < before.files@.len() && f != file_index ==> after.files@[f] == before.files@[f]
    &&& after.files@[file_index].0@ == before.files@[file_index].0@
    &&& after.files@[file_index].1.id == before.files@[file_index].1.id
    &&& after.files@[file_index].1.module_id == before.files@[file_index].1.module_id
    &&& after.files@[file_index].1.type_id_counter == before.files@[file_index].1.type_id_counter
    &&& after.intrinsic_module == before.intrinsic_module
    &&& after.intrinsic_to_id == before.intrinsic_to_id
    &&& after.array_intrinsics == before.array_intrinsics
    &&& after.dict_intrinsics == before.dict_intrinsics
    &&& after.rc_intrinsics == before.rc_intrinsics
    &&& after.cell_intrinsics == before.cell_intrinsics
    &&& match before.spec_decl(before.files@[file_index].1.module_id) {
        Some(TypeDeclaration::Module(_)) => exists|
            names: Seq<(String, TypeID)>,
            declared: Seq<Option<TypeDeclaration>>,
        |
            #![trigger file_filled(before, after, file_index, items, reported, errors, names, declared)]
            file_filled(before, after, file_index, items, reported, errors, names, declared),
        _ => {
            &&& after.files == before.files
            &&& after.id_to_decl == before.id_to_decl
            &&& after.id_to_func == before.id_to_func
            &&& after.extern_function_bindings == before.extern_function_bindings
            &&& after.extern_function_exports == before.extern_function_exports
            &&& errors.len() == reported.len() + 1
            &&& errors.subrange(0, reported.len() as int) == reported
            &&& errors.last().0 == TypecheckError::FileNotFound
            &&& errors.last().1.source_name@.len() == 0
            &&& errors.last().1.start_line == 0
            &&& errors.last().1.start_offset == 0
            &&& errors.last().1.end_line == 0
            &&& errors.last().1.end_offset == 0
        },
    }
}

/// The second pass over a file: its imports are resolved and recorded;
/// its structs, unions and interfaces are filled in and declared, after
/// the declarations that were there; the signatures of its functions
/// and methods are recorded; its constants are added to the exports of
/// its module. What is wrong is reported after the errors that were
/// there. See `file_passed`.
pub fn fill_in_file_type_info(
    ctx: &mut DeclarationContext,
    file_index: usize,
    source: &ParsedFile,
    errors: &mut Vec<(TypecheckError, SourceRange)>,
)
    requires
        file_index < old(ctx).files@.len(),
    ensures
        file_passed(
            *old(ctx),
            *final(ctx),
            file_index as int,
            source.top_level@,
            old(errors)@,
            final(errors)@,
        ),
{
    let ghost first = *ctx;
    let module_id = ctx.files[file_index].1.module_id;
    let at = match ctx.decl_position(module_id) {
        Some(at) => at,
        None => {
            let ghost reported = errors@;
            errors.push((TypecheckError::FileNotFound, SourceRange::nowhere()));
            assert(errors@.subrange(0, reported.len() as int) =~= reported);
            return ;
        },
    };
    let is_module = match &ctx.id_to_decl[at] {
        TypeDeclaration::Module(_) => true,
        _ => false,
    };
    if !is_module {
        let ghost reported = errors@;
        errors.push((TypecheckError::FileNotFound, SourceRange::nowhere()));
        assert(errors@.subrange(0, reported.len() as int) =~= reported);
        return ;
    }
    let imports = resolve_imports(ctx, source, errors);
    let exports: Vec<(String, Export)> = match &ctx.id_to_decl[at] {
        TypeDeclaration::Module(module) => joined_exports(&module.exports, Vec::new()),
        _ => Vec::new(),
    };
    let ghost module_exports = first.id_to_decl@[at as int]->Module_0.exports@;
    assert(exports@ =~= module_exports);
    let names = type_names(&imports, &exports);
    let mut module = FileDeclarations {
        id: ctx.files[file_index].1.id,
        module_id,
        type_id_counter: ctx.files[file_index].1.type_id_counter,
        func_id_counter: ctx.files[file_index].1.func_id_counter,
        imports,
    };
    let mut funcs: Vec<FuncType> = Vec::new();
    std::mem::swap(&mut funcs, &mut ctx.id_to_func);
    let declared = fill_in_declarations(&names, &mut module, &mut funcs, &exports, source, errors);
    ctx.id_to_func = funcs;
    let constants = resolve_constants(&names, source, errors);
    let ghost found = constants@;
    let mut bindings: Vec<(String, FunctionID)> = Vec::new();
    std::mem::swap(&mut bindings, &mut ctx.extern_function_bindings);
    let mut offered: Vec<(String, FunctionID)> = Vec::new();
    std::mem::swap(&mut offered, &mut ctx.extern_function_exports);
    record_externs(&exports, source, &mut bindings, &mut offered);
    ctx.extern_function_bindings = bindings;
    ctx.extern_function_exports = offered;
    let extended = joined_exports(&exports, constants);
    assert(named(extended@) =~= named(module_exports) + named(found));
    ctx.id_to_decl.set(
        at,
        TypeDeclaration::Module(ModuleType { id: module_id, exports: extended }),
    );
    let ghost base = ctx.id_to_decl@;
    let ghost filled = declared@;
    declare_all(&mut ctx.id_to_decl, declared);
    let name = ctx.files[file_index].0.clone();
    ctx.files.set(file_index, (name, module));
    proof {
        assert(ctx.id_to_decl@[at as int] == base[at as int]);
        assert forall|i: int| 0 <= i < first.id_to_decl@.len() && i != at implies ctx.id_to_decl@[i]
            == first.id_to_decl@[i] by {
            assert(ctx.id_to_decl@[i] == base[i]);
        }
        assert(ctx.id_to_decl@.subrange(base.len() as int, ctx.id_to_decl@.len() as int)
            =~= filled_types(filled, filled.len() as int));
        lemma_decl_index(first.id_to_decl@, module_id);
        assert(errors@ =~= old(errors)@ + file_failures(
            &first,
            names@,
            module_exports,
            source.top_level@,
        ));
        assert(file_filled(
            first,
            *ctx,
            file_index as int,
            source.top_level@,
            old(errors)@,
            errors@,
            names@,
            filled,
        ));
    }
}

/// The name conflicts among the first `n` items of a file: one for each
/// item that bears the name of an item before it. It names the nearest
/// such item's place and the name, and is reported at the place of the
/// later item.
pub open spec fn file_conflicts(items: Seq<AstStatement>, n: int) -> Seq<Failure>
    decreases n,
{
    if n <= 0 {
        Seq::empty()
    } else {
        let before = file_conflicts(items, n - 1);
        match conflict_at(items, n - 1) {
            Some(j) => match items[n - 1].value.spec_declared_string() {
                Some(name) => before.push(
                    (
                        TypecheckError::DeclarationNameConflict {
                            first: items[j].provenance,
                            name,
                        },
                        items[n - 1].provenance,
                    ),
                ),
                None => before,
            },
            None => before,
        }
    }
}

/// The name conflicts in the first `n` files, file by file.
pub open spec fn all_conflicts(files: Seq<(String, ParsedFile)>, n: int) -> Seq<Failure>
    decreases n,
{
    if n <= 0 {
        Seq::empty()
    } else {
        all_conflicts(files, n - 1) + file_conflicts(
            files[n - 1].1.top_level@,
            files[n - 1].1.top_level@.len() as int,
        )
    }
}

/// Reports the name conflicts of a file after the errors that were
/// there; `conflicts` holds for each item the nearest item before it
/// that bears its name.
pub fn report_conflicts(
    source: &ParsedFile,
    conflicts: &Vec<Option<usize>>,
    errors: &mut Vec<(TypecheckError, SourceRange)>,
)
    requires
        conflicts@.len() == source.top_level@.len(),
        forall|k: int|
            0 <= k < conflicts@.len() ==> match #[trigger] conflicts@[k] {
                Some(j) => j < k && conflict_at(source.top_level@, k) == Some(j as int),
                None => conflict_at(source.top_level@, k).is_none(),
            },
    ensures
        final(errors)@ == old(errors)@ + file_conflicts(
            source.top_level@,
            source.top_level@.len() as int,
        ),
{
    let items = &source.top_level;
    let ghost reported = errors@;
    let mut k: usize = 0;
    assert(errors@ =~= reported + file_conflicts(items@, 0));
    while k < items.len()
        invariant
            0 <= k <= items@.len(),
            items == &source.top_level,
            conflicts@.len() == items@.len(),
            forall|m: int|
                0 <= m < conflicts@.len() ==> match #[trigger] conflicts@[m] {
                    Some(j) => j < m && conflict_at(items@, m) == Some(j as int),
                    None => conflict_at(items@, m).is_none(),
                },
            reported == old(errors)@,
            errors@ == reported + file_conflicts(items@, k as int),
        decreases items@.len() - k,
    {
        let ghost so_far = file_conflicts(items@, k as int);
        let found: Option<usize> = conflicts[k];
        match found {
            Some(j) => match items[k].value.declared_name() {
                Some(name) => {
                    let error = TypecheckError::DeclarationNameConflict {
                        first: items[j].provenance.duplicate(),
                        name: name.clone(),
                    };
                    errors.push((error, items[k].provenance.duplicate()));
                    assert(errors@ =~= reported + so_far.push(
                        (
                            TypecheckError::DeclarationNameConflict {
                                first: items@[j as int].provenance,
                                name: *name,
                            },
                            items@[k as int].provenance,
                        ),
                    ));
                },
                None => {},
            },
            None => {},
        }
        k = k + 1;
    }
}

/// Whether the file at `k` stands in the context as the first pass
/// leaves it: under its name, as the file of its ordinal, the files
/// being numbered from 2; with its counters after its declarations and
/// nothing imported; and with its module, which exports what the file
/// declares, as the declaration at `k`. See `assigned`.
pub open spec fn file_recorded(ctx: DeclarationContext, files: Seq<(String, ParsedFile)>, k: int) -> bool {
    let file = FileID((k + 2) as u32);
    let items = files[k].1.top_level@;
    &&& ctx.files@[k].0@ == files[k].0@
    &&& ctx.files@[k].1.id == file
    &&& ctx.files@[k].1.module_id == TypeID(file, 1)
    &&& ctx.files@[k].1.type_id_counter == assigned(items, items.len() as int, file).1
}

/// See `file_recorded`; this is the part that the second pass changes.
pub open spec fn file_assigned(ctx: DeclarationContext, files: Seq<(String, ParsedFile)>, k: int) -> bool {
    let file = FileID((k + 2) as u32);
    let items = files[k].1.top_level@;
    &&& file_recorded(ctx, files, k)
    &&& ctx.files@[k].1.func_id_counter == assigned(items, items.len() as int, file).2
    &&& ctx.files@[k].1.imports@.len() == 0
    &&& ctx.id_to_decl@[k] matches TypeDeclaration::Module(module) && module.id == TypeID(file, 1)
        && plain_exports(module.exports@) == assigned(items, items.len() as int, file).0
        && forall|i: int|
        0 <= i < module.exports@.len() ==> (#[trigger] module.exports@[i]).1.constant.is_none()
}

/// Whether `ctx` is the context after the first pass over the first `k`
/// files: the files and their modules stand in it in order, see
/// `file_assigned`; no signature is recorded; the module of the
/// intrinsics is that of file 1, with nothing drawn from it; and no
/// intrinsic or extern function is registered.
pub open spec fn first_pass_done(files: Seq<(String, ParsedFile)>, ctx: DeclarationContext, k: int) -> bool {
    &&& ctx.files@.len() == k
    &&& ctx.id_to_decl@.len() == k
    &&& forall|j: int| 0 <= j < k ==> #[trigger] file_assigned(ctx, files, j)
    &&& ctx.id_to_func@.len() == 0
    &&& ctx.intrinsic_module.id == FileID(1)
    &&& ctx.intrinsic_module.module_id == TypeID(FileID(1), 1)
    &&& ctx.intrinsic_module.func_id_counter == 1
    &&& ctx.intrinsic_module.type_id_counter == 2
    &&& ctx.intrinsic_module.imports@.len() == 0
    &&& ctx.intrinsic_to_id@.len() == 0
    &&& ctx.array_intrinsics@.len() == 0
    &&& ctx.dict_intrinsics@.len() == 0
    &&& ctx.rc_intrinsics@.len() == 0
    &&& ctx.cell_intrinsics@.len() == 0
    &&& ctx.extern_function_bindings@.len() == 0
    &&& ctx.extern_function_exports@.len() == 0
}

/// Whether the second pass over the file at `i` leads from the `i`-th
/// of the contexts and lists of errors to the next; see `file_passed`.
pub open spec fn file_links(
    files: Seq<(String, ParsedFile)>,
    contexts: Seq<DeclarationContext>,
    reports: Seq<Seq<Failure>>,
    i: int,
) -> bool {
    file_passed(
        contexts[i],
        contexts[i + 1],
        i,
        files[i].1.top_level@,
        reports[i],
        reports[i + 1],
    )
}

/// Whether `contexts` and `reports` are the contexts and the lists of
/// errors that the second pass goes through over the first `k` files,
/// file after file in the order given, each on what the files before it
/// left: they begin with `start` and `conflicts`, and each file leads
/// from one to the next.
pub open spec fn files_passed(
    files: Seq<(String, ParsedFile)>,
    start: DeclarationContext,
    conflicts: Seq<Failure>,
    k: int,
    contexts: Seq<DeclarationContext>,
    reports: Seq<Seq<Failure>>,
) -> bool {
    &&& contexts.len() == k + 1
    &&& reports.len() == k + 1
    &&& contexts[0] == start
    &&& reports[0] == conflicts
    &&& forall|i: int| 0 <= i < k ==> #[trigger] file_links(files, contexts, reports, i)
}

/// Whether `ctx` and `errors` are what the files make: the first pass
/// over all of them, then the second pass over all of them, which goes
/// on from the name conflicts that the first pass found, then the
/// operations on collections.
pub open spec fn built(files: Seq<(String, ParsedFile)>, ctx: DeclarationContext, errors: Seq<Failure>) -> bool {
    let n = files.len() as int;
    exists|contexts: Seq<DeclarationContext>, reports: Seq<Seq<Failure>>|
        #![trigger files_passed(files, contexts[0], all_conflicts(files, n), n, contexts, reports)]
        first_pass_done(files, contexts[0], n) && files_passed(
            files,
            contexts[0],
            all_conflicts(files, n),
            n,
            contexts,
            reports,
        ) && reports[n] == errors && intrinsics_added(contexts[n], ctx)
}

impl DeclarationContext {
    /// The declarations of a compilation, from its files with their
    /// names.
    ///
    /// The first pass gives every declared type and function its
    /// identifier and every file its module; the files are numbered
    /// from 2 in the order given, 1 being the module of the intrinsics.
    /// Items of one file that share a name are reported. The second
    /// pass resolves the imports of each file and fills in its
    /// declarations; see `fill_in_file_type_info`. Then the operations
    /// on collections are registered; see `add_intrinsics`. The result
    /// is the context where nothing was wrong, else all that was wrong
    /// in any file: the name conflicts, then what the second pass
    /// found, file by file. See `built`.
    pub fn new(files: &Vec<(String, ParsedFile)>) -> (r: Result<
        DeclarationContext,
        Vec<(TypecheckError, SourceRange)>,
    >)
        requires
            files@.len() + 2 <= u32::MAX,
        ensures
            exists|ctx: DeclarationContext, errors: Seq<Failure>|
                #![trigger built(files@, ctx, errors)]
                built(files@, ctx, errors) && match r {
                    Ok(made) => errors.len() == 0 && made == ctx,
                    Err(found) => errors.len() > 0 && found@ == errors,
                },
            r matches Ok(ctx) ==> {
                &&& ctx.files@.len() == files@.len()
                &&& forall|k: int| 0 <= k < files@.len() ==> #[trigger] file_recorded(ctx, files@, k)
                &&& ctx.intrinsic_module.id == FileID(1)
                &&& offers(ctx.array_intrinsics@, 0, 2, FileID(1), 1)
                &&& offers(ctx.dict_intrinsics@, 2, 2, FileID(1), 1)
                &&& offers(ctx.rc_intrinsics@, 4, 1, FileID(1), 1)
                &&& offers(ctx.cell_intrinsics@, 5, 2, FileID(1), 1)
            },
    {
        let mut ctx = DeclarationContext::empty(FileID(1));
        let mut errors: Vec<(TypecheckError, SourceRange)> = Vec::new();
        let mut k: usize = 0;
        assert(errors@ =~= all_conflicts(files@, 0));
        while k < files.len()
            invariant
                0 <= k <= files@.len(),
                files@.len() + 2 <= u32::MAX,
                first_pass_done(files@, ctx, k as int),
                errors@ == all_conflicts(files@, k as int),
            decreases files@.len() - k,
        {
            let ghost before = ctx;
            let (module, exports, conflicts) = assign_ids_to_names(
                FileID((k + 2) as u32),
                &files[k].1,
            );
            report_conflicts(&files[k].1, &conflicts, &mut errors);
            ctx.id_to_decl.push(
                TypeDeclaration::Module(ModuleType { id: module.module_id, exports }),
            );
            ctx.files.push((files[k].0.clone(), module));
            proof {
                assert forall|j: int| 0 <= j < k + 1 implies #[trigger] file_assigned(
                    ctx,
                    files@,
                    j,
                ) by {
                    if j < k {
                        assert(file_assigned(before, files@, j));
                        assert(ctx.files@[j] == before.files@[j]);
                        assert(ctx.id_to_decl@[j] == before.id_to_decl@[j]);
                    }
                }
            }
            k = k + 1;
        }
        let ghost start = ctx;
        let ghost conflicts = errors@;
        let ghost mut contexts: Seq<DeclarationContext> = seq![ctx];
        let ghost mut reports: Seq<Seq<Failure>> = seq![errors@];
        proof {
            assert forall|j: int| 0 <= j < files@.len() implies #[trigger] file_recorded(
                ctx,
                files@,
                j,
            ) by {
                assert(file_assigned(ctx, files@, j));
            }
        }
        let mut k: usize = 0;
        while k < files.len()
            invariant
                0 <= k <= files@.len(),
                ctx.files@.len() == files@.len(),
                forall|j: int| 0 <= j < files@.len() ==> #[trigger] file_recorded(ctx, files@, j),
                ctx.intrinsic_module.id == FileID(1),
                ctx.intrinsic_module.func_id_counter == 1,
                files_passed(files@, start, conflicts, k as int, contexts, reports),
                contexts[k as int] == ctx,
                reports[k as int] == errors@,
            decreases files@.len() - k,
        {
            let ghost before = ctx;
            let ghost reported = errors@;
            fill_in_file_type_info(&mut ctx, k, &files[k].1, &mut errors);
            proof {
                assert forall|j: int| 0 <= j < files@.len() implies #[trigger] file_recorded(
                    ctx,
                    files@,
                    j,
                ) by {
                    assert(file_recorded(before, files@, j));
                    if j != k {
                        assert(ctx.files@[j] == before.files@[j]);
                    }
                }
                let ghost old_contexts = contexts;
                let ghost old_reports = reports;
                contexts = contexts.push(ctx);
                reports = reports.push(errors@);
                assert forall|i: int| 0 <= i < k + 1 implies #[trigger] file_links(
                    files@,
                    contexts,
                    reports,
                    i,
                ) by {
                    if i < k {
                        assert(file_links(files@, old_contexts, old_reports, i));
                    }
                }
            }
            k = k + 1;
        }
        let ghost passed = ctx;
        add_intrinsics(&mut ctx);
        proof {
            assert forall|j: int| 0 <= j < files@.len() implies #[trigger] file_recorded(
                ctx,
                files@,
                j,
            ) by {
                assert(file_recorded(passed, files@, j));
            }
            assert(first_pass_done(files@, contexts[0], files@.len() as int));
            assert(intrinsics_added(contexts[files@.len() as int], ctx));
            assert(built(files@, ctx, errors@));
        }
        if errors.len() > 0 {
            Err(errors)
        } else {
            Ok(ctx)
        }
    }
}

} // verus!
