//! The layout arithmetic: padding, extension, unions and the whole task
//! allocation layout.

use yage_runtime::layout::eval_task_layout;
use yage_runtime::layout::is_power_of_two;
use yage_runtime::layout::max;
use yage_runtime::layout::ConstLayout;

#[test]
fn test_padding_needed_for() {
    let l = ConstLayout::from_size_align_unchecked(10, 1);
    assert_eq!(l.padding_needed_for(8), 6);
    let l = ConstLayout::from_size_align_unchecked(16, 8);
    assert_eq!(l.padding_needed_for(8), 0);
    let l = ConstLayout::from_size_align_unchecked(1, 1);
    assert_eq!(l.padding_needed_for(4), 3);
}

#[test]
fn test_extend() {
    // A 16-byte, 8-aligned header extended by a 4-byte, 4-aligned field:
    // the field sits at offset 16 and the whole is 20 bytes, 8-aligned.
    let header = ConstLayout::from_size_align_unchecked(16, 8);
    let field = ConstLayout::from_size_align_unchecked(4, 4);
    let (whole, offset) = header.extend(field).unwrap();
    assert_eq!(offset, 16);
    assert_eq!(whole.size(), 20);
    assert_eq!(whole.align(), 8);

    // Extending across a padding gap: 5 bytes then an 8-aligned field.
    let head = ConstLayout::from_size_align_unchecked(5, 1);
    let tail = ConstLayout::from_size_align_unchecked(8, 8);
    let (whole, offset) = head.extend(tail).unwrap();
    assert_eq!(offset, 8);
    assert_eq!(whole.size(), 16);
    assert_eq!(whole.align(), 8);

    // A non-power-of-two alignment is rejected.
    let odd = ConstLayout::from_size_align_unchecked(4, 3);
    let plain = ConstLayout::from_size_align_unchecked(4, 1);
    assert!(odd.extend(plain).is_none());

    // A total past the maximum allocation size is rejected.
    let huge = ConstLayout::from_size_align_unchecked(usize::MAX / 2, 1);
    assert!(huge.extend(field).is_none());
}

#[test]
fn test_unionize() {
    let f = ConstLayout::from_size_align_unchecked(24, 8);
    let r = ConstLayout::from_size_align_unchecked(16, 16);
    let u = ConstLayout::unionize(f, r);
    assert_eq!(u.size(), 24);
    assert_eq!(u.align(), 16);
}

#[test]
fn test_new_for() {
    let l = ConstLayout::new_for::<u64>();
    assert_eq!(l.size(), 8);
    let l = ConstLayout::new_for::<()>();
    assert_eq!(l.size(), 0);
}

#[test]
fn test_eval_task_layout() {
    // Header of 24 bytes (8-aligned), a zero-sized scheduler, a 40-byte
    // computation against a 16-byte result: the union is 40 bytes and both
    // its interpretations share offset 24.
    let header = ConstLayout::from_size_align_unchecked(24, 8);
    let sched = ConstLayout::from_size_align_unchecked(0, 1);
    let fut = ConstLayout::from_size_align_unchecked(40, 8);
    let res = ConstLayout::from_size_align_unchecked(16, 8);
    let tl = eval_task_layout(header, sched, fut, res).unwrap();
    assert_eq!(tl.offset_s, 24);
    assert_eq!(tl.offset_f, 24);
    assert_eq!(tl.offset_r, 24);
    assert_eq!(tl.layout.size(), 64);
    assert_eq!(tl.layout.align(), 8);
}

#[test]
fn test_is_power_of_two() {
    assert!(!is_power_of_two(0));
    assert!(is_power_of_two(1));
    assert!(is_power_of_two(2));
    assert!(!is_power_of_two(3));
    assert!(is_power_of_two(1024));
    assert!(!is_power_of_two(1023));
}

#[test]
fn test_max() {
    assert_eq!(max(3, 5), 5);
    assert_eq!(max(5, 3), 5);
    assert_eq!(max(4, 4), 4);
}
