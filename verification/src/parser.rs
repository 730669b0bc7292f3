//! What the parser hands over of a file's declarations: the top-level
//! items with their names, their type expressions and where they stand.

use vstd::prelude::*;
use crate::id::{AnyID, ConstantID};
use crate::types::ExpressionType;
use crate::provenance::SourceRange;

verus! {

/// A type as it is written in the source.
#[derive(Debug)]
pub enum AstTypeValue {
    Name(String),
    Void,
    Unique(Box<AstType>),
    Shared(Box<AstType>),
    Array(Box<AstType>),
    Dict(Box<AstType>, Box<AstType>),
    Rc(Box<AstType>),
    Cell(Box<AstType>),
    Nullable(Box<AstType>),
    Generator { yield_ty: Box<AstType>, param_ty: Box<AstType> },
}

#[derive(Debug)]
pub struct AstType {
    pub value: AstTypeValue,
    pub provenance: SourceRange,
}

/// A field, a parameter or a variant with a payload.
#[derive(Debug)]
pub struct NameAndType {
    pub name: String,
    pub ty: AstType,
    pub provenance: SourceRange,
}

/// How a method takes `self`.
#[derive(Copy, Clone, Debug, PartialEq, Eq, Structural)]
pub enum SelfParameter {
    Unique,
    Shared,
    Owned,
}

/// The signature of a function as written.
#[derive(Debug)]
pub struct FunctionHeaderValue {
    pub name: String,
    pub self_param: Option<SelfParameter>,
    pub params: Vec<NameAndType>,
    pub returns: Option<AstType>,
}

/// A function with a body; of the body only what it is matters here.
#[derive(Debug)]
pub struct FunctionDeclarationValue {
    pub header: FunctionHeaderValue,
    pub is_extern: bool,
    pub is_coroutine: bool,
}

/// A method of an interface: required of those that implement it, or
/// given with a body.
#[derive(Debug)]
pub enum InterfaceFunction {
    Required(FunctionHeaderValue),
    Provided(FunctionDeclarationValue),
}

#[derive(Debug)]
pub struct StructDeclarationValue {
    pub name: String,
    pub fields: Vec<NameAndType>,
    pub associated_functions: Vec<(FunctionDeclarationValue, SourceRange)>,
    pub properties: Vec<String>,
}

#[derive(Debug)]
pub enum UnionDeclarationVariant {
    WithValue(NameAndType),
    WithoutValue(String),
}

#[derive(Debug)]
pub struct UnionDeclarationValue {
    pub name: String,
    pub variants: Vec<UnionDeclarationVariant>,
    pub properties: Vec<String>,
}

#[derive(Debug)]
pub struct InterfaceDeclarationValue {
    pub name: String,
    pub associated_functions: Vec<(InterfaceFunction, SourceRange)>,
}

/// A top-level item of a file.
#[derive(Debug)]
pub enum AstStatementValue {
    StructDeclaration(StructDeclarationValue),
    UnionDeclaration(UnionDeclarationValue),
    InterfaceDeclaration(InterfaceDeclarationValue),
    FunctionDeclaration(FunctionDeclarationValue),
    ExternFunctionBinding(FunctionHeaderValue),
    Import(Vec<String>),
    ConstDeclaration { name: String, type_hint: Option<AstType>, variable_id: ConstantID },
    /// A statement that declares nothing.
    Expression,
}

#[derive(Debug)]
pub struct AstStatement {
    pub value: AstStatementValue,
    pub provenance: SourceRange,
}

#[derive(Debug)]
pub struct ParsedFile {
    pub top_level: Vec<AstStatement>,
}

impl UnionDeclarationVariant {
    pub open spec fn spec_name(&self) -> Seq<char> {
        match self {
            UnionDeclarationVariant::WithValue(v) => v.name@,
            UnionDeclarationVariant::WithoutValue(name) => name@,
        }
    }

    /// The name of the variant.
    pub fn name(&self) -> (r: &String)
        ensures
            r@ == self.spec_name(),
    {
        match self {
            UnionDeclarationVariant::WithValue(v) => &v.name,
            UnionDeclarationVariant::WithoutValue(name) => name,
        }
    }
}

impl AstStatementValue {
    /// The name under which the item is known in its file, if it has
    /// one: what it declares, or the last part of the path it imports.
    pub open spec fn spec_declared_name(&self) -> Option<Seq<char>> {
        match self {
            AstStatementValue::StructDeclaration(d) => Some(d.name@),
            AstStatementValue::UnionDeclaration(d) => Some(d.name@),
            AstStatementValue::InterfaceDeclaration(d) => Some(d.name@),
            AstStatementValue::FunctionDeclaration(d) => Some(d.header.name@),
            AstStatementValue::ExternFunctionBinding(h) => Some(h.name@),
            AstStatementValue::Import(path) => if path@.len() > 0 {
                Some(path@.last()@)
            } else {
                None
            },
            AstStatementValue::ConstDeclaration { name, .. } => Some(name@),
            AstStatementValue::Expression => None,
        }
    }

    /// The name under which the item is known in its file, as it is
    /// written.
    pub open spec fn spec_declared_string(&self) -> Option<String> {
        match self {
            AstStatementValue::StructDeclaration(d) => Some(d.name),
            AstStatementValue::UnionDeclaration(d) => Some(d.name),
            AstStatementValue::InterfaceDeclaration(d) => Some(d.name),
            AstStatementValue::FunctionDeclaration(d) => Some(d.header.name),
            AstStatementValue::ExternFunctionBinding(h) => Some(h.name),
            AstStatementValue::Import(path) => if path@.len() > 0 {
                Some(path@.last())
            } else {
                None
            },
            AstStatementValue::ConstDeclaration { name, .. } => Some(*name),
            AstStatementValue::Expression => None,
        }
    }

    /// The name under which the item is known in its file.
    pub fn declared_name(&self) -> (r: Option<&String>)
        ensures
            match r {
                Some(name) => self.spec_declared_name() == Some(name@)
                    && self.spec_declared_string() == Some(*name),
                None => self.spec_declared_name().is_none()
                    && self.spec_declared_string().is_none(),
            },
    {
        match self {
            AstStatementValue::StructDeclaration(d) => Some(&d.name),
            AstStatementValue::UnionDeclaration(d) => Some(&d.name),
            AstStatementValue::InterfaceDeclaration(d) => Some(&d.name),
            AstStatementValue::FunctionDeclaration(d) => Some(&d.header.name),
            AstStatementValue::ExternFunctionBinding(h) => Some(&h.name),
            AstStatementValue::Import(path) => if path.len() > 0 {
                Some(&path[path.len() - 1])
            } else {
                None
            },
            AstStatementValue::ConstDeclaration { name, .. } => Some(name),
            AstStatementValue::Expression => None,
        }
    }
}

/// What is found out of the nodes of a file, by the index of the node:
/// the type of each, and for a name what it refers to. A cell is filled
/// once and never changed.
#[derive(Debug)]
pub struct AstCells {
    pub types: Vec<Option<ExpressionType>>,
    pub referenced_ids: Vec<Option<AnyID>>,
}

impl AstCells {
    /// The cells of `nodes` nodes, none of them filled.
    pub fn new(nodes: usize) -> (cells: AstCells)
        ensures
            cells.types@.len() == nodes,
            cells.referenced_ids@.len() == nodes,
            forall|i: int| 0 <= i < nodes ==> (#[trigger] cells.types@[i]).is_none(),
            forall|i: int| 0 <= i < nodes ==> (#[trigger] cells.referenced_ids@[i]).is_none(),
    {
        let mut types: Vec<Option<ExpressionType>> = Vec::new();
        let mut referenced_ids: Vec<Option<AnyID>> = Vec::new();
        let mut i: usize = 0;
        while i < nodes
            invariant
                0 <= i <= nodes,
                types@.len() == i,
                referenced_ids@.len() == i,
                forall|k: int| 0 <= k < i ==> (#[trigger] types@[k]).is_none(),
                forall|k: int| 0 <= k < i ==> (#[trigger] referenced_ids@[k]).is_none(),
            decreases nodes - i,
        {
            types.push(None);
            referenced_ids.push(None);
            i = i + 1;
        }
        AstCells { types, referenced_ids }
    }

    /// Fills the type cell of the node, if the file has such a node and
    /// its cell is empty; says whether it did. A cell that is filled
    /// stays as it is.
    pub fn set_type(&mut self, node: usize, ty: ExpressionType) -> (filled: bool)
        ensures
            filled == (node < old(self).types@.len() && old(self).types@[node as int].is_none()),
            filled ==> final(self).types@ == old(self).types@.update(node as int, Some(ty)),
            !filled ==> final(self).types@ == old(self).types@,
            final(self).referenced_ids@ == old(self).referenced_ids@,
    {
        if node < self.types.len() && self.types[node].is_none() {
            self.types.set(node, Some(ty));
            true
        } else {
            false
        }
    }

    /// Fills the cell of the node that says what the name refers to, if
    /// the file has such a node and its cell is empty; says whether it
    /// did. A cell that is filled stays as it is.
    pub fn set_referenced_id(&mut self, node: usize, id: AnyID) -> (filled: bool)
        ensures
            filled == (node < old(self).referenced_ids@.len() && old(self).referenced_ids@[node as int].is_none()),
            filled ==> final(self).referenced_ids@ == old(self).referenced_ids@.update(
                node as int,
                Some(id),
            ),
            !filled ==> final(self).referenced_ids@ == old(self).referenced_ids@,
            final(self).types@ == old(self).types@,
    {
        if node < self.referenced_ids.len() && self.referenced_ids[node].is_none() {
            self.referenced_ids.set(node, Some(id));
            true
        } else {
            false
        }
    }

    /// The type of the node, if its cell is filled.
    pub fn ty(&self, node: usize) -> (r: Option<&ExpressionType>)
        ensures
            match r {
                Some(ty) => node < self.types@.len() && self.types@[node as int] == Some(*ty),
                None => node >= self.types@.len() || self.types@[node as int].is_none(),
            },
    {
        if node < self.types.len() {
            match &self.types[node] {
                Some(ty) => Some(ty),
                None => None,
            }
        } else {
            None
        }
    }

    /// What the name at the node refers to, if its cell is filled.
    pub fn referenced_id(&self, node: usize) -> (r: Option<AnyID>)
        ensures
            r == if node < self.referenced_ids@.len() {
                self.referenced_ids@[node as int]
            } else {
                None
            },
    {
        if node < self.referenced_ids.len() {
            self.referenced_ids[node]
        } else {
            None
        }
    }
}

} // verus!
