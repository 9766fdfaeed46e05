use xdcc::transfer::{ReadStep, Transfer};

#[test]
fn transfer_completion_across_varying_reads() {
    let mut t = Transfer::new(10);
    assert!(matches!(t.on_read(4), ReadStep::Write { count: 4, done: false }));
    assert!(matches!(t.on_read(1), ReadStep::Write { count: 1, done: false }));
    assert!(matches!(t.on_read(5), ReadStep::Write { count: 5, done: true }));
    assert_eq!(t.written, 10);
}

#[test]
fn short_transfer_detected_on_early_close() {
    let mut t = Transfer::new(10);
    assert!(matches!(t.on_read(3), ReadStep::Write { count: 3, done: false }));
    assert!(matches!(t.on_read(0), ReadStep::ShortTransfer));
    assert_eq!(t.written, 3);
    assert_eq!(t.size, 10);
}

#[test]
fn final_write_is_truncated_to_declared_size() {
    let mut t = Transfer::new(5);
    assert!(matches!(t.on_read(9), ReadStep::Write { count: 5, done: true }));
    assert_eq!(t.written, 5);
}

#[test]
fn single_exact_read_completes() {
    let mut t = Transfer::new(7);
    assert!(matches!(t.on_read(7), ReadStep::Write { count: 7, done: true }));
}
