//! Access to the memory of the inspected process.

use vstd::prelude::*;
use crate::ast::AddressResolver;
use crate::lexer::str_eq;

verus! {

/// Reads the memory of a process; implemented by the host application.
pub trait MemoryReaderWriter: AddressResolver {
    fn read_buf(&self, addr: usize, buffer: &mut Vec<u8>);

    fn can_read(&self, addr: usize) -> bool;
}

/// Everything the inspector needs of a process.
pub trait MemoryState: MemoryReaderWriter {}

/// Stands in for a process when none is attached: nothing is readable, one
/// sample module is known, and every address holds zero.
pub struct NullMemoryReader;

impl MemoryReaderWriter for NullMemoryReader {
    fn read_buf(&self, addr: usize, buffer: &mut Vec<u8>) {
    }

    fn can_read(&self, addr: usize) -> bool {
        false
    }
}

impl AddressResolver for NullMemoryReader {
    fn module_symbol_to_address(&self, module_name: &str) -> Option<isize> {
        if str_eq(module_name, "sample.dll") {
            Some(0x1000)
        } else {
            None
        }
    }

    fn dereference(&self, address: usize) -> Option<isize> {
        Some(0)
    }
}

impl MemoryState for NullMemoryReader {}

} // verus!
