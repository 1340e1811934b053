//! The compact vector: pushes, the doubling growth policy, and handing the
//! buffer back.

use yage_runtime::small_vec::SmallVec;

#[test]
fn test_push() {
    let mut buf = SmallVec::new();

    buf.push(1);
    buf.push(2);

    assert_eq!(buf.as_slice(), &[1, 2]);
}

#[test]
fn test_growth_doubles() {
    let mut buf: SmallVec<u32> = SmallVec::new();
    assert_eq!(buf.capacity(), 0);
    buf.push(1);
    assert_eq!(buf.capacity(), 1);
    buf.push(2);
    assert_eq!(buf.capacity(), 2);
    buf.push(3);
    assert_eq!(buf.capacity(), 4);
    buf.push(4);
    buf.push(5);
    assert_eq!(buf.capacity(), 8);
    assert_eq!(buf.len(), 5);
}

#[test]
fn test_with_capacity() {
    let mut buf: SmallVec<u16> = SmallVec::with_capacity(4);
    assert_eq!(buf.capacity(), 4);
    assert_eq!(buf.len(), 0);
    buf.push(1);
    buf.push(2);
    buf.push(3);
    buf.push(4);
    assert_eq!(buf.capacity(), 4);
    buf.push(5);
    assert_eq!(buf.capacity(), 8);
}

#[test]
fn test_into_boxed_slice() {
    let mut buf: SmallVec<u8> = SmallVec::new();
    buf.push(9);
    buf.push(8);
    let out = buf.into_boxed_slice();
    assert_eq!(out, Vec::from([9u8, 8]));
}
