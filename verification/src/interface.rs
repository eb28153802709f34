//! The interface-description model.
//!
//! A deployed contract is described to its callers by a list of entries,
//! one per callable function, each naming the function and the wire type
//! and codec of every input and output. Producing the human-readable
//! artifact from this model is an offline concern outside this crate; the
//! model itself is plain data.

use vstd::prelude::*;

verus! {

/// One named input or output of a callable function: its name, its wire
/// type, and the codec it crosses the boundary under.
#[derive(Clone, Debug, PartialEq)]
pub struct Argument {
    pub name: String,
    pub type_: String,
    pub codec: String,
}

impl Argument {
    /// An argument under the default codec, which frames a value as one
    /// opaque byte slot.
    pub fn with_default_codec(name: String, type_: String) -> (r: Argument)
        ensures
            r.name@ == name@,
            r.type_@ == type_@,
            r.codec@ == "bytes"@,
    {
        Argument { name, type_, codec: default_codec() }
    }
}

/// The name of the default codec.
pub fn default_codec() -> (r: String)
    ensures
        r@ == "bytes"@,
{
    "bytes".to_string()
}

/// One callable function: its name, its inputs in declaration order, and
/// its outputs in return order.
#[derive(Clone, Debug, PartialEq)]
pub struct FunctionEntry {
    pub name: String,
    pub arguments: Vec<Argument>,
    pub outputs: Vec<Argument>,
}

/// One entry of a contract's description.
#[derive(Clone, Debug, PartialEq)]
pub enum AbiEntry {
    Function(FunctionEntry),
}

/// A contract's description: its entries in declaration order.
#[derive(Clone, Debug, PartialEq)]
pub struct Abi(pub Vec<AbiEntry>);

impl Abi {
    /// A description of no entries.
    pub fn new() -> (r: Abi)
        ensures
            r.0@.len() == 0,
    {
        Abi(Vec::new())
    }

    /// Add one callable function to the description.
    pub fn push_function(&mut self, entry: FunctionEntry)
        ensures
            final(self).0@ == old(self).0@.push(AbiEntry::Function(entry)),
    {
        self.0.push(AbiEntry::Function(entry));
    }
}

} // verus!
