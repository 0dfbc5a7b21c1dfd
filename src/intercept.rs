//! What the hooks of the open family decide for each call: which real symbol
//! stands behind a hook, where the trace goes, and what an open call records
//! and forwards.

use vstd::prelude::*;
use crate::fault::Fault;
use crate::mode::{forwarded_mode, forwarded_mode_of, mode_present, CreationFlags};
use crate::record::{log, record_of};

verus! {

/// One of the hooked entry points.
#[derive(Clone, Copy, Debug, PartialEq, Eq, Structural)]
pub enum Operation {
    Open,
    Open64,
    OpenAt,
    OpenAt64,
    Fopen,
    Fopen64,
}

/// The name under which the dynamic loader knows the real implementation.
pub open spec fn symbol_of(op: Operation) -> Seq<char> {
    match op {
        Operation::Open => "open"@,
        Operation::Open64 => "open64"@,
        Operation::OpenAt => "openat"@,
        Operation::OpenAt64 => "openat64"@,
        Operation::Fopen => "fopen"@,
        Operation::Fopen64 => "fopen64"@,
    }
}

impl Operation {
    /// The symbol to look up, past this library's own definition, to find the
    /// real implementation of this operation.
    pub fn symbol_name(&self) -> (r: &'static str)
        ensures
            r@ == symbol_of(*self),
    {
        match self {
            Operation::Open => "open",
            Operation::Open64 => "open64",
            Operation::OpenAt => "openat",
            Operation::OpenAt64 => "openat64",
            Operation::Fopen => "fopen",
            Operation::Fopen64 => "fopen64",
        }
    }
}

/// Checks the address that the next-symbol lookup returned: a null address
/// means the real implementation cannot be found.
pub fn resolved_address(address: usize) -> (r: Result<usize, Fault>)
    ensures
        address == 0 ==> r == Err::<usize, Fault>(Fault::SymbolNotFound),
        address != 0 ==> r == Ok::<usize, Fault>(address),
{
    if address == 0 {
        Err(Fault::SymbolNotFound)
    } else {
        Ok(address)
    }
}

/// Whether `bytes` holds a NUL byte.
pub open spec fn contains_nul(bytes: Seq<u8>) -> bool {
    exists|i: int| 0 <= i < bytes.len() && bytes[i] == 0
}

/// Turns the configured trace destination into a NUL-terminated file name.
/// A missing destination, or one with a NUL byte inside, is a fault.
pub fn destination_path(configured: Option<Vec<u8>>) -> (r: Result<Vec<u8>, Fault>)
    requires
        configured is Some ==> configured->Some_0@.len() < usize::MAX,
    ensures
        match configured {
            None => r == Err::<Vec<u8>, Fault>(Fault::MissingDestination),
            Some(name) => if contains_nul(name@) {
                r == Err::<Vec<u8>, Fault>(Fault::InvalidDestination)
            } else {
                r is Ok && r->Ok_0@ == name@.push(0)
            },
        },
{
    match configured {
        None => Err(Fault::MissingDestination),
        Some(mut name) => {
            let ghost given = name@;
            let mut i: usize = 0;
            while i < name.len()
                invariant
                    name@ == given,
                    configured is Some && configured->Some_0@ == given,
                    i <= name@.len(),
                    forall|j: int| 0 <= j < i ==> name@[j] != 0,
                decreases name@.len() - i,
            {
                if name[i] == 0 {
                    assert(0 <= i < given.len() && given[i as int] == 0);
                    return Err(Fault::InvalidDestination);
                }
                i = i + 1;
            }
            name.push(0);
            Ok(name)
        },
    }
}

/// What an open-type hook carries out once its arguments have been checked:
/// the record to add to the trace, and the mode to forward.
pub struct PreparedOpen {
    pub record: Vec<u8>,
    pub mode: u32,
}

/// Checks the mode argument of an open-type call and, only where it passes,
/// builds the record of its path. A refused call leaves no record behind.
pub fn prepare_open(path: &[u8], flags: i32, c: &CreationFlags, supplied: Option<u32>) -> (r: Result<
    PreparedOpen,
    Fault,
>)
    requires
        mode_present(flags, *c) ==> supplied.is_some(),
        path@.len() < usize::MAX,
    ensures
        match forwarded_mode_of(flags, *c, supplied) {
            Ok(m) => r is Ok && r->Ok_0.record@ == record_of(path@) && r->Ok_0.mode == m,
            Err(e) => r is Err && r->Err_0 == e,
        },
{
    match forwarded_mode(flags, c, supplied) {
        Err(e) => Err(e),
        Ok(mode) => {
            let mut record: Vec<u8> = Vec::new();
            log(&mut record, path);
            Ok(PreparedOpen { record, mode })
        },
    }
}

} // verus!
