//! A published code module, as the node's query interface names it.

use vstd::prelude::*;

verus! {

/// A code module: the address of the account that published it, and its
/// name within that account.
#[derive(Debug)]
pub struct Module {
    address: String,
    name: String,
}

impl Clone for Module {
    fn clone(&self) -> (module: Module)
        ensures
            module.address_text() == self.address_text(),
            module.name_text() == self.name_text(),
    {
        Module { address: self.address.clone(), name: self.name.clone() }
    }
}

impl Module {
    /// The text of the publishing account's address.
    pub closed spec fn address_text(&self) -> Seq<char> {
        self.address@
    }

    /// The text of the module's name.
    pub closed spec fn name_text(&self) -> Seq<char> {
        self.name@
    }

    pub fn new(address: String, name: String) -> (module: Module)
        ensures
            module.address_text() == address@,
            module.name_text() == name@,
    {
        Module { address, name }
    }

    pub fn address(&self) -> (address: &str)
        ensures
            address@ == self.address_text(),
    {
        self.address.as_str()
    }

    pub fn name(&self) -> (name: &str)
        ensures
            name@ == self.name_text(),
    {
        self.name.as_str()
    }
}

} // verus!
