//! The parts of a Sierra program that naming reads, held as plain values.
use vstd::prelude::*;
use std::collections::HashMap;

verus! {

/// A user-type id: a number derived by hashing a nominal type's source name,
/// held as little-endian base-2^32 digits without trailing zeros.
#[derive(Debug)]
pub struct UserTypeId {
    pub id: Vec<u32>,
    /// The source-level name, where the program carries it.
    pub debug_name: Option<String>,
}

/// An arbitrary-precision integer: sign and little-endian base-2^32 magnitude.
#[derive(Debug)]
pub struct IntValue {
    pub negative: bool,
    pub magnitude: Vec<u32>,
}

/// One generic argument of an instantiated declaration.
#[derive(Debug)]
pub enum GenericArg {
    UserType(UserTypeId),
    Type(u64),
    Value(IntValue),
    UserFunc(u64),
    Libfunc(u64),
}

/// A concrete type declaration: its id, its generic type and its arguments.
#[derive(Debug)]
pub struct TypeDeclaration {
    pub id: u64,
    pub generic_id: String,
    pub generic_args: Vec<GenericArg>,
}

/// A concrete libfunc declaration: its id, its generic libfunc and its arguments.
#[derive(Debug)]
pub struct LibfuncDeclaration {
    pub id: u64,
    pub generic_id: String,
    pub generic_args: Vec<GenericArg>,
}

/// The three name tables that annotate a program.
#[derive(Debug)]
pub struct DebugInfo {
    pub type_names: HashMap<u64, String>,
    pub libfunc_names: HashMap<u64, String>,
    pub user_func_names: HashMap<u64, String>,
}

/// A program as naming sees it: its declarations, the ids of its user
/// functions, and the slot that receives the name tables.
#[derive(Debug)]
pub struct Program {
    pub type_declarations: Vec<TypeDeclaration>,
    pub libfunc_declarations: Vec<LibfuncDeclaration>,
    pub funcs: Vec<u64>,
    pub debug_info: Option<DebugInfo>,
}

/// The ways a program can be ill-formed for naming.
#[derive(Debug, Clone, Copy, PartialEq, Eq)]
pub enum MapError {
    /// Two type declarations share an id.
    DuplicateTypeId,
    /// A generic argument is a libfunc, or names a type that no declaration has.
    InvalidArgument,
    /// The type declarations depend on each other in a cycle.
    Cycle,
}

} // verus!
