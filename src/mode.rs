//! The optional permission-mode argument of the open family: when it is
//! present, what may be forwarded, and when a call is refused.

use vstd::prelude::*;
use crate::fault::Fault;

verus! {

/// The open flags that make a call carry a permission mode, as the target's
/// C library defines them: the create flag, and the flags that ask for an
/// unnamed temporary file. Their values differ between targets.
#[derive(Clone, Copy, Debug, PartialEq, Eq, Structural)]
pub struct CreationFlags {
    pub create: i32,
    pub tmpfile: i32,
}

/// The union of the permission and special-mode bits: set-user-ID,
/// set-group-ID, sticky, and read/write/execute for user, group and others.
pub open spec fn legal_mode_bits() -> u32 {
    0o7777
}

/// Whether a call with these flags carries a permission mode: it creates a
/// file (the create bit is set), or it asks for an unnamed temporary file
/// (all of the temporary-file bits are set).
pub open spec fn mode_present(flags: i32, c: CreationFlags) -> bool {
    (flags & c.create) != 0 || (flags & c.tmpfile) == c.tmpfile
}

/// Whether `mode` sets only permission and special-mode bits.
pub open spec fn legal_mode(mode: u32) -> bool {
    (mode & !legal_mode_bits()) == 0
}

/// The mode handed on to the real open for `flags`, given the mode argument
/// the caller supplied (read only where the flags say it is present).
pub open spec fn forwarded_mode_of(flags: i32, c: CreationFlags, supplied: Option<u32>) -> Result<
    u32,
    Fault,
> {
    if !mode_present(flags, c) {
        Ok(0)
    } else if legal_mode(supplied.unwrap()) {
        Ok(supplied.unwrap())
    } else {
        Err(Fault::IllegalMode)
    }
}

/// Relies on libc::O_CREAT, the create flag of open: a nonzero value on every
/// target, though not the same one.
#[verifier::external_body]
fn o_creat() -> (r: i32)
    ensures
        r != 0,
{
    libc::O_CREAT
}

/// Relies on libc::O_TMPFILE, the unnamed-temporary-file flags of open: a
/// nonzero value on every target (it includes O_DIRECTORY), though not the
/// same one.
#[verifier::external_body]
fn o_tmpfile() -> (r: i32)
    ensures
        r != 0,
{
    libc::O_TMPFILE
}

/// Relies on libc::S_ISUID, the set-user-ID mode bit.
#[verifier::external_body]
fn s_isuid() -> (r: u32)
    ensures
        r == 0o4000,
{
    libc::S_ISUID
}

/// Relies on libc::S_ISGID, the set-group-ID mode bit.
#[verifier::external_body]
fn s_isgid() -> (r: u32)
    ensures
        r == 0o2000,
{
    libc::S_ISGID
}

/// Relies on libc::S_ISVTX, the sticky mode bit.
#[verifier::external_body]
fn s_isvtx() -> (r: u32)
    ensures
        r == 0o1000,
{
    libc::S_ISVTX
}

/// Relies on libc::S_IRWXU, the read, write and execute bits of the owner.
#[verifier::external_body]
fn s_irwxu() -> (r: u32)
    ensures
        r == 0o700,
{
    libc::S_IRWXU
}

/// Relies on libc::S_IRWXG, the read, write and execute bits of the group.
#[verifier::external_body]
fn s_irwxg() -> (r: u32)
    ensures
        r == 0o70,
{
    libc::S_IRWXG
}

/// Relies on libc::S_IRWXO, the read, write and execute bits of others.
#[verifier::external_body]
fn s_irwxo() -> (r: u32)
    ensures
        r == 0o7,
{
    libc::S_IRWXO
}

impl CreationFlags {
    /// The creation flags of the target this library is built for. What is
    /// known of them on every target is only that neither is zero.
    pub fn of_target() -> (r: CreationFlags)
        ensures
            r.create != 0,
            r.tmpfile != 0,
    {
        CreationFlags { create: o_creat(), tmpfile: o_tmpfile() }
    }
}

/// Whether a call with `flags` passes a permission mode, where `c` are the
/// creation flags in use. Where this is false the mode argument may be absent
/// and must not be read.
pub fn mode_required(flags: i32, c: &CreationFlags) -> (r: bool)
    ensures
        r == mode_present(flags, *c),
{
    (flags & c.create) != 0 || (flags & c.tmpfile) == c.tmpfile
}

/// Whether `mode` lies within the union of the permission and special-mode
/// bits.
pub fn mode_is_legal(mode: u32) -> (r: bool)
    ensures
        r == legal_mode(mode),
{
    let bits = s_isuid() | s_isgid() | s_isvtx() | s_irwxu() | s_irwxg() | s_irwxo();
    assert(0o4000u32 | 0o2000u32 | 0o1000u32 | 0o700u32 | 0o70u32 | 0o7u32 == 0o7777u32)
        by (bit_vector);
    (mode & !bits) == 0
}

/// The mode to forward for a call with `flags`: zero where the flags carry
/// none, the supplied mode where it is legal, and a fault where it is not.
pub fn forwarded_mode(flags: i32, c: &CreationFlags, supplied: Option<u32>) -> (r: Result<
    u32,
    Fault,
>)
    requires
        mode_present(flags, *c) ==> supplied.is_some(),
    ensures
        r == forwarded_mode_of(flags, *c, supplied),
        r is Err <==> mode_present(flags, *c) && !legal_mode(supplied.unwrap()),
{
    if !mode_required(flags, c) {
        Ok(0)
    } else {
        let mode = supplied.unwrap();
        if mode_is_legal(mode) {
            Ok(mode)
        } else {
            Err(Fault::IllegalMode)
        }
    }
}

/// Where the flags carry no permission mode, whatever sits in the mode
/// argument's place changes nothing: zero is forwarded and no fault is raised.
pub proof fn lemma_mode_ignored_without_creation(
    flags: i32,
    c: CreationFlags,
    a: Option<u32>,
    b: Option<u32>,
)
    requires
        !mode_present(flags, c),
    ensures
        forwarded_mode_of(flags, c, a) == forwarded_mode_of(flags, c, b),
        forwarded_mode_of(flags, c, a) == Ok::<u32, Fault>(0),
{
}

} // verus!
