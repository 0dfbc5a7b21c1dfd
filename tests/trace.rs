use fstracer::fault::Fault;
use fstracer::intercept::{destination_path, prepare_open, resolved_address, Operation};
use fstracer::mode::{forwarded_mode, mode_is_legal, mode_required, CreationFlags};
use fstracer::record::{log, read_lines};

fn target() -> CreationFlags {
    CreationFlags::of_target()
}

/// The creation flags as x86-64 Linux defines them.
const X86_64: CreationFlags = CreationFlags { create: 0o100, tmpfile: 0o20200000 };

/// The creation flags as aarch64 Linux defines them.
const AARCH64: CreationFlags = CreationFlags { create: 0o100, tmpfile: 0o20040000 };

#[test]
fn target_creation_flags_are_libc_ones() {
    let c = CreationFlags::of_target();
    assert_eq!(c.create, libc::O_CREAT);
    assert_eq!(c.tmpfile, libc::O_TMPFILE);
}

#[test]
fn mode_presence_on_x86_64_layout() {
    assert!(mode_required(0o100 | 0o1, &X86_64));
    assert!(mode_required(0o20200000 | 0o2, &X86_64));
    assert!(!mode_required(0o200000, &X86_64));
    assert!(!mode_required(0o20000000, &X86_64));
    assert!(!mode_required(0o20040002, &X86_64));
    assert!(!mode_required(0, &X86_64));
}

#[test]
fn mode_presence_on_aarch64_layout() {
    assert!(mode_required(0o100, &AARCH64));
    assert!(mode_required(0o20040002, &AARCH64));
    assert!(!mode_required(0o40000, &AARCH64));
    assert!(!mode_required(0o20200000, &AARCH64));
    assert_eq!(forwarded_mode(0o20040002, &AARCH64, Some(0o600)), Ok(0o600));
    assert_eq!(forwarded_mode(0o40000, &AARCH64, Some(0o170000)), Ok(0));
}

#[test]
fn record_is_path_then_newline() {
    let mut out = Vec::new();
    log(&mut out, b"/etc/passwd");
    assert_eq!(out, b"/etc/passwd\n".to_vec());
    log(&mut out, b"/tmp/x");
    assert_eq!(out, b"/etc/passwd\n/tmp/x\n".to_vec());
}

#[test]
fn empty_path_is_an_empty_line() {
    let mut out = Vec::new();
    log(&mut out, b"");
    assert_eq!(out, vec![b'\n']);
    assert_eq!(read_lines(&out), vec![Vec::<u8>::new()]);
}

#[test]
fn non_text_bytes_round_trip() {
    let path: Vec<u8> = vec![0xff, 0xfe, 0x80, b'/', 0x01, 0x7f, 0xc3];
    let mut out = Vec::new();
    log(&mut out, &path);
    assert_eq!(out.len(), path.len() + 1);
    assert_eq!(read_lines(&out), vec![path]);
}

#[test]
fn every_record_is_one_line() {
    let n: usize = 5;
    let mut out = Vec::new();
    let mut expected = Vec::new();
    // Records of n callers, n calls each, taken in an interleaved order.
    for call in 0..n {
        for caller in 0..n {
            let path = format!("/caller{}/call{}", caller, call).into_bytes();
            log(&mut out, &path);
            expected.push(path);
        }
    }
    assert_eq!(out.iter().filter(|b| **b == b'\n').count(), n * n);
    let lines = read_lines(&out);
    assert_eq!(lines.len(), n * n);
    assert_eq!(lines, expected);
}

#[test]
fn embedded_newline_splits_the_line() {
    let mut out = Vec::new();
    log(&mut out, b"a\nb");
    assert_eq!(read_lines(&out), vec![b"a".to_vec(), b"b".to_vec()]);
}

#[test]
fn cut_short_record_is_last_line() {
    assert_eq!(read_lines(b"one\ntw"), vec![b"one".to_vec(), b"tw".to_vec()]);
    assert_eq!(read_lines(b""), Vec::<Vec<u8>>::new());
}

#[test]
fn creation_flags_carry_a_mode() {
    assert!(mode_required(libc::O_CREAT, &target()));
    assert!(mode_required(libc::O_WRONLY | libc::O_CREAT | libc::O_TRUNC, &target()));
    assert!(mode_required(libc::O_TMPFILE | libc::O_RDWR, &target()));
    assert!(!mode_required(libc::O_RDONLY, &target()));
    assert!(!mode_required(libc::O_RDWR | libc::O_APPEND, &target()));
    // The directory bit is part of the temporary-file flags, but alone it
    // asks for no new file.
    assert!(!mode_required(libc::O_DIRECTORY, &target()));
    assert!(!mode_required(0o100 << 1, &target()));
}

#[test]
fn legal_mode_bits() {
    assert!(mode_is_legal(0));
    assert!(mode_is_legal(0o644));
    assert!(mode_is_legal(0o7777));
    assert!(mode_is_legal(0o4000));
    assert!(mode_is_legal(0o2000));
    assert!(mode_is_legal(0o1000));
    assert!(mode_is_legal(0o700));
    assert!(mode_is_legal(0o70));
    assert!(mode_is_legal(0o7));
    assert!(!mode_is_legal(0o10000));
    assert!(!mode_is_legal(0o170644));
    assert!(!mode_is_legal(u32::MAX));
}

#[test]
fn garbage_mode_ignored_without_creation() {
    assert_eq!(forwarded_mode(libc::O_RDONLY, &target(), None), Ok(0));
    assert_eq!(forwarded_mode(libc::O_RDONLY, &target(), Some(0xdead_beef)), Ok(0));
    assert_eq!(forwarded_mode(libc::O_WRONLY | libc::O_APPEND, &target(), Some(u32::MAX)), Ok(0));
}

#[test]
fn supplied_mode_forwarded_on_creation() {
    assert_eq!(forwarded_mode(libc::O_CREAT | libc::O_WRONLY, &target(), Some(0o644)), Ok(0o644));
    assert_eq!(forwarded_mode(libc::O_TMPFILE | libc::O_RDWR, &target(), Some(0o600)), Ok(0o600));
}

#[test]
fn illegal_mode_refused_without_record() {
    let r = prepare_open(b"/tmp/new", libc::O_CREAT | libc::O_WRONLY, &target(), Some(0o100644));
    assert!(matches!(r, Err(Fault::IllegalMode)));
    assert_eq!(forwarded_mode(libc::O_CREAT, &target(), Some(0o10000)), Err(Fault::IllegalMode));
}

#[test]
fn prepared_open_records_then_forwards() {
    let p = prepare_open(b"/tmp/new", libc::O_CREAT | libc::O_WRONLY, &target(), Some(0o640)).unwrap();
    assert_eq!(p.record, b"/tmp/new\n".to_vec());
    assert_eq!(p.mode, 0o640);
    let q = prepare_open(b"/etc/hosts", libc::O_RDONLY, &target(), None).unwrap();
    assert_eq!(q.record, b"/etc/hosts\n".to_vec());
    assert_eq!(q.mode, 0);
}

#[test]
fn missing_destination_is_a_fault() {
    assert_eq!(destination_path(None), Err(Fault::MissingDestination));
}

#[test]
fn destination_with_nul_is_a_fault() {
    assert_eq!(destination_path(Some(b"/tmp/a\0b".to_vec())), Err(Fault::InvalidDestination));
}

#[test]
fn destination_is_nul_terminated() {
    assert_eq!(destination_path(Some(b"/tmp/trace".to_vec())), Ok(b"/tmp/trace\0".to_vec()));
    assert_eq!(destination_path(Some(Vec::new())), Ok(vec![0]));
}

#[test]
fn null_symbol_is_a_fault() {
    assert_eq!(resolved_address(0), Err(Fault::SymbolNotFound));
    assert_eq!(resolved_address(0x7f00_1234), Ok(0x7f00_1234));
}

#[test]
fn symbol_names() {
    assert_eq!(Operation::Open.symbol_name(), "open");
    assert_eq!(Operation::Open64.symbol_name(), "open64");
    assert_eq!(Operation::OpenAt.symbol_name(), "openat");
    assert_eq!(Operation::OpenAt64.symbol_name(), "openat64");
    assert_eq!(Operation::Fopen.symbol_name(), "fopen");
    assert_eq!(Operation::Fopen64.symbol_name(), "fopen64");
}
