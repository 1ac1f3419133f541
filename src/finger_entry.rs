use vstd::prelude::*;

use crate::ring::HashPos;

verus! {

/// A routing shortcut: a ring position and the address of the node believed
/// to be responsible for it.
#[derive(Clone, Debug, Default)]
pub struct FingerEntry {
    pub key: HashPos,
    pub address: String,
}

impl FingerEntry {
    pub fn new(key: &HashPos, address: &String) -> (r: FingerEntry)
        ensures
            r.key == *key,
            r.address@ == address@,
    {
        FingerEntry { address: address.clone(), key: *key }
    }

    pub fn get_key(&self) -> (r: &HashPos)
        ensures
            *r == self.key,
    {
        &self.key
    }

    pub fn get_address(&self) -> (r: &String)
        ensures
            r@ == self.address@,
    {
        &self.address
    }

    pub fn get_address_mut(&mut self) -> (r: &mut String)
        ensures
            *r == old(self).address,
            final(self).key == old(self).key,
            final(self).address == *final(r),
    {
        &mut self.address
    }
}

} // verus!
