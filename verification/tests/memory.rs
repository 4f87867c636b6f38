use guestkit::error::Error;
use guestkit::mem::Mem;
use guestkit::NULL;

#[test]
fn write_then_read_returns_written_bytes() {
    let mut m = Mem::new(1024);
    let data = vec![1u8, 2, 3, 4, 5];
    m.write_bytes(100, &data).unwrap();
    let back = m.read_bytes(100, 5).unwrap();
    assert_eq!(back, data);
}

#[test]
fn write_does_not_touch_neighbours() {
    let mut m = Mem::new(1024);
    m.write_bytes(100, &vec![0xAAu8; 8]).unwrap();
    m.write_bytes(108, &vec![0xBBu8; 8]).unwrap();
    assert_eq!(m.read_bytes(100, 8).unwrap(), vec![0xAAu8; 8]);
    assert_eq!(m.read_bytes(99, 1).unwrap(), vec![0u8]);
    assert_eq!(m.read_bytes(116, 1).unwrap(), vec![0u8]);
}

#[test]
fn out_of_bounds_read_fails() {
    let m = Mem::new(64);
    assert_eq!(
        m.read_bytes(60, 8),
        Err(Error::OutOfBounds { addr: 60, len: 8 })
    );
    assert_eq!(
        m.read_bytes(100, 1),
        Err(Error::OutOfBounds { addr: 100, len: 1 })
    );
}

#[test]
fn out_of_bounds_write_fails_and_changes_nothing() {
    let mut m = Mem::new(64);
    let r = m.write_bytes(62, &vec![9u8, 9, 9, 9]);
    assert_eq!(r, Err(Error::OutOfBounds { addr: 62, len: 4 }));
    assert_eq!(m.read_bytes(60, 4).unwrap(), vec![0u8; 4]);
}

#[test]
fn null_address_is_never_dereferenced() {
    let mut m = Mem::new(64);
    assert!(m.read_bytes(NULL, 1).is_err());
    assert!(m.write_bytes(NULL, &vec![1u8]).is_err());
    assert!(m.read_u32(NULL).is_err());
    assert!(m.cstr_at(NULL).is_err());
}

#[test]
fn word_write_then_read() {
    let mut m = Mem::new(256);
    m.write_u32(16, 0xDEADBEEF).unwrap();
    assert_eq!(m.read_u32(16).unwrap(), 0xDEADBEEF);
    assert_eq!(m.read_bytes(16, 4).unwrap(), vec![0xEF, 0xBE, 0xAD, 0xDE]);
}

#[test]
fn cstr_reads_to_terminator() {
    let mut m = Mem::new(64);
    m.write_bytes(10, &vec![b'h', b'i', 0]).unwrap();
    assert_eq!(m.cstr_at(10).unwrap(), vec![b'h', b'i']);
}

#[test]
fn cstr_without_terminator_fails() {
    let mut m = Mem::new(16);
    m.write_bytes(8, &vec![1u8; 8]).unwrap();
    assert!(m.cstr_at(8).is_err());
}

#[test]
fn allocate_is_aligned_nonnull_and_disjoint() {
    let mut m = Mem::new(1024);
    let a = m.allocate(10, 8).unwrap();
    let b = m.allocate(10, 8).unwrap();
    assert_ne!(a, 0);
    assert_ne!(b, 0);
    assert_eq!(a % 8, 0);
    assert_eq!(b % 8, 0);
    assert!(b >= a + 10);
}

#[test]
fn allocate_fails_when_exhausted() {
    let mut m = Mem::new(64);
    assert_eq!(m.allocate(128, 4), Err(Error::OutOfMemory));
    // A smaller request still fits afterwards: the failure had no effect.
    assert!(m.allocate(16, 4).is_ok());
}

#[test]
fn zero_length_access_at_the_end_is_in_bounds() {
    let m = Mem::new(64);
    assert_eq!(m.read_bytes(64, 0).unwrap(), Vec::<u8>::new());
    assert!(m.read_bytes(65, 0).is_err());
}
