//! One host pointer for each interpreter.
//!
//! The host may hang one pointer of its own on an interpreter and find it
//! again from any state of that interpreter. The pointers are kept by the
//! key of the interpreter in one store for the whole process.
use std::collections::HashMap;
use vstd::prelude::*;

verus! {

/// The pointers that the host has hung on interpreters, by the key of the
/// interpreter.
pub struct ExtraData {
    pub slots: HashMap<usize, usize>,
}

impl ExtraData {
    /// The pointer that hangs on the interpreter `key`; null where none
    /// does.
    pub open spec fn pointer(&self, key: usize) -> usize {
        if self.slots@.contains_key(key) {
            self.slots@[key]
        } else {
            0
        }
    }

    /// A store without pointers.
    pub fn new() -> (r: ExtraData)
        ensures
            forall|key: usize| r.pointer(key) == 0,
    {
        ExtraData { slots: HashMap::new() }
    }

    /// Hangs `ptr` on the interpreter `key`, in place of what hung there.
    /// The pointers of other interpreters stay.
    pub fn copy_to_extraspace(&mut self, key: usize, ptr: usize)
        ensures
            forall|k: usize|
                #[trigger] final(self).pointer(k) == (if k == key {
                    ptr
                } else {
                    old(self).pointer(k)
                }),
    {
        broadcast use vstd::std_specs::hash::group_hash_axioms;

        self.slots.insert(key, ptr);
    }

    /// The pointer that hangs on the interpreter `key`; null where none
    /// does.
    pub fn read_from_extraspace(&self, key: usize) -> (r: usize)
        ensures
            r == self.pointer(key),
    {
        broadcast use vstd::std_specs::hash::group_hash_axioms;

        match self.slots.get(&key) {
            Some(ptr) => *ptr,
            None => 0,
        }
    }

    /// Takes down what hangs on the interpreter `key`. The pointers of other
    /// interpreters stay.
    pub fn close_extraspace(&mut self, key: usize)
        ensures
            forall|k: usize|
                #[trigger] final(self).pointer(k) == (if k == key {
                    0
                } else {
                    old(self).pointer(k)
                }),
    {
        broadcast use vstd::std_specs::hash::group_hash_axioms;

        self.slots.remove(&key);
    }
}

} // verus!
