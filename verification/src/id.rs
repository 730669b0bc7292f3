//! The identifier families of one compilation.

use vstd::prelude::*;

verus! {

/// Names one compilation unit.
#[derive(Copy, Clone, Debug, PartialEq, Eq, Hash, Structural)]
pub struct FileID(pub u32);

/// Names a declared type; it belongs to the file that declared it.
#[derive(Copy, Clone, Debug, PartialEq, Eq, Hash, Structural)]
pub struct TypeID(pub FileID, pub u32);

/// Names a function; it belongs to the file that declared it.
#[derive(Copy, Clone, Debug, PartialEq, Eq, Hash, Structural)]
pub struct FunctionID(pub FileID, pub u32);

/// Names a local variable or a synthetic temporary.
#[derive(Copy, Clone, Debug, PartialEq, Eq, Hash, Structural)]
pub struct VariableID(pub u32);

/// Names a top-level constant.
#[derive(Copy, Clone, Debug, PartialEq, Eq, Hash, Structural)]
pub struct ConstantID(pub u32);

/// Whatever a name can resolve to.
#[derive(Copy, Clone, Debug, PartialEq, Eq, Hash, Structural)]
pub enum AnyID {
    Type(TypeID),
    Function(FunctionID),
    Variable(VariableID),
    Constant(ConstantID),
}

impl FileID {
    /// The identifier of the file with the given ordinal.
    pub fn new(ordinal: u32) -> (id: FileID)
        ensures
            id == FileID(ordinal),
    {
        FileID(ordinal)
    }

    pub fn ordinal(&self) -> (n: u32)
        ensures
            n == self.0,
    {
        self.0
    }
}

impl TypeID {
    pub fn file(&self) -> (f: FileID)
        ensures
            f == self.0,
    {
        self.0
    }
}

impl FunctionID {
    pub fn file(&self) -> (f: FileID)
        ensures
            f == self.0,
    {
        self.0
    }
}

} // verus!
