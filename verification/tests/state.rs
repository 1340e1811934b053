//! The packed state word: flag arithmetic, reference counting, packing, and
//! the sequential cell that carries it.

use yage_runtime::flags::CLOSED;
use yage_runtime::flags::COMPLETED;
use yage_runtime::flags::HANDLE_HERE;
use yage_runtime::flags::RUNNING;
use yage_runtime::flags::SCHEDULED;
use yage_runtime::flags::TAKEN;
use yage_runtime::state::AtomicState;
use yage_runtime::state::State;

#[test]
fn test_pack_round_trip() {
    let s = State { reference_count: 3, flags: SCHEDULED | HANDLE_HERE };
    let packed = s.as_usize();
    assert_eq!(packed, 3 + ((SCHEDULED | HANDLE_HERE) as u64) * 0x1_0000_0000);
    assert_eq!(State::from_usize(packed), s);
}

#[test]
fn test_flag_ops() {
    let s = State { reference_count: 0, flags: 0 };
    let s = s.set_flag(SCHEDULED).set_flag(CLOSED);
    assert!(s.has_flag_set(SCHEDULED));
    assert!(s.has_flag_set(CLOSED));
    assert!(!s.has_flag_set(RUNNING));
    let s = s.clear_flag(SCHEDULED);
    assert!(!s.has_flag_set(SCHEDULED));
    assert!(s.has_flag_set(CLOSED));
}

#[test]
fn test_flag_queries() {
    let s = State { reference_count: 1, flags: SCHEDULED | HANDLE_HERE };
    assert!(s.is_scheduled());
    assert!(s.has_valid_handle());
    assert!(!s.is_completed());
    assert!(!s.is_closed());
    assert!(!s.is_running());
    assert!(!s.has_been_taken());
    let s = State { reference_count: 0, flags: COMPLETED | CLOSED | TAKEN };
    assert!(s.is_completed());
    assert!(s.is_closed());
    assert!(s.has_been_taken());
    assert!(!s.is_scheduled());
}

#[test]
fn test_reference_count() {
    let s = State { reference_count: 0, flags: RUNNING };
    let s = s.increment_reference_count();
    assert_eq!(s.reference_count, 1);
    assert_eq!(s.flags, RUNNING);
    let s = s.increment_reference_count().decrement_reference_count();
    assert_eq!(s.reference_count, 1);
}

#[test]
fn test_atomic_state() {
    let initial = State { reference_count: 1, flags: SCHEDULED };
    let mut cell = AtomicState::new(initial);
    assert_eq!(cell.load(), initial);
    let next = State { reference_count: 0, flags: COMPLETED };
    cell.store(next);
    assert_eq!(cell.load(), next);
}

#[test]
fn test_compare_exchange() {
    let a = State { reference_count: 1, flags: SCHEDULED };
    let b = State { reference_count: 1, flags: SCHEDULED | RUNNING };
    let mut cell = AtomicState::new(a);
    // Matching expectation: the swap happens.
    assert_eq!(cell.compare_exchange_weak(a, b), Ok(a));
    assert_eq!(cell.load(), b);
    // Stale expectation: the current state comes back instead.
    assert_eq!(cell.compare_exchange_weak(a, b), Err(b));
    assert_eq!(cell.load(), b);
}

#[test]
fn test_with() {
    let mut cell = AtomicState::new(State { reference_count: 0, flags: 0 });
    let was_scheduled = cell.with(|s: State| (s.set_flag(SCHEDULED), s.has_flag_set(SCHEDULED)));
    assert!(!was_scheduled);
    assert!(cell.load().has_flag_set(SCHEDULED));
    let seen = cell.with_acquire_release(|s: State| (s.clear_flag(SCHEDULED), s.flags));
    assert_eq!(seen, SCHEDULED);
    assert_eq!(cell.load().flags, 0);
}
