use streamsql::array::{array_position__, element__};
use streamsql::casts::{cast_to_decimal_decimal, decimal_fits, try_cast_to_decimal_decimal};
use streamsql::layout::{HostAddress, Layout, LayoutError};
use streamsql::memory::{FileIdCounter, MemoryBackend, StorageError};
use streamsql::string::{substring2__, SqlString};
use streamsql::values::Decimal;

fn addr(last: u8) -> HostAddress {
    HostAddress { ip: 0x7f00_0000 | last as u128, v6: false, port: 8000 }
}

#[test]
fn multihost_with_one_host_is_solo() {
    let a = addr(1);
    let layout = Layout::new_multihost(&vec![(a, 2)], a).unwrap();
    assert!(matches!(layout, Layout::Solo { n_workers: 2 }));
    assert_eq!(layout.n_workers(), 2);
}

#[test]
fn multihost_rejects_duplicate_address() {
    let a = addr(1);
    let r = Layout::new_multihost(&vec![(a, 2), (a, 3)], a);
    assert_eq!(r.err(), Some(LayoutError::DuplicateAddress(a)));
}

#[test]
fn multihost_rejects_unknown_local_address() {
    let (a, b, c) = (addr(1), addr(2), addr(3));
    let r = Layout::new_multihost(&vec![(a, 2), (b, 3)], c);
    assert_eq!(r.err(), Some(LayoutError::NoSuchAddress(c)));
}

#[test]
fn multihost_assigns_contiguous_workers() {
    let (a, b) = (addr(1), addr(2));
    let layout = Layout::new_multihost(&vec![(a, 2), (b, 3)], b).unwrap();
    assert_eq!(layout.n_workers(), 5);
    assert_eq!(layout.local_workers(), 2..5);
    assert_eq!(layout.local_address(), Some(b));
    assert_eq!(layout.other_hosts(), vec![a]);
}

#[test]
fn memory_backend_round_trip() {
    let mut ids = FileIdCounter::new();
    let mut backend = MemoryBackend::new();
    let fd = backend.create_named(&mut ids, "file1").unwrap();
    assert_eq!(backend.write_block(&fd, 0, vec![1, 2, 3]).unwrap(), vec![1, 2, 3]);
    let (ifd, name) = backend.complete(fd).unwrap();
    assert_eq!(name, "file1");
    assert_eq!(backend.read_block(&ifd, 0, 3).unwrap(), vec![1, 2, 3]);
    assert_eq!(backend.read_block(&ifd, 0, 2), Err(StorageError::UnexpectedEof));
    assert_eq!(backend.get_size(&ifd).unwrap(), 3);
    assert_eq!(backend.open("other"), Err(StorageError::NotFound));
    assert_eq!(backend.open("file1").unwrap(), ifd);
}

#[test]
fn decimal_cast_truncates() {
    let v = Decimal::new(12345678, 4);
    assert!(decimal_fits(v, 6, 2));
    let r = cast_to_decimal_decimal(v, 6, 2);
    assert_eq!(r, Decimal::new(123456, 2));
    assert!(!decimal_fits(v, 6, 3));
    assert_eq!(try_cast_to_decimal_decimal(v, 6, 3), None);
}

#[test]
fn element_edge_cases() {
    assert_eq!(element__::<i32>(vec![]), None);
    assert_eq!(element__(vec![5]), Some(5));
}

#[test]
fn array_position_is_one_based() {
    assert_eq!(array_position__(vec![10, 20, 30], 20), 2);
    assert_eq!(array_position__(vec![10, 20, 30], 99), 0);
}

#[test]
fn substring_without_count() {
    let r = substring2__(SqlString::from_ref("hello"), 3);
    assert_eq!(r.str(), "llo");
    let r = substring2__(SqlString::from_ref("hello"), -4);
    assert_eq!(r.str(), "hello");
}
