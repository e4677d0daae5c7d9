use wasmtime_mmap::{
    round_up_to_page_size, AccessStep, Fault, MapRequest, Mmap, Protection, ReserveStep,
};

#[test]
fn test_round_up_to_page_size() {
    assert_eq!(round_up_to_page_size(0, 4096), 0);
    assert_eq!(round_up_to_page_size(1, 4096), 4096);
    assert_eq!(round_up_to_page_size(4096, 4096), 4096);
    assert_eq!(round_up_to_page_size(4097, 4096), 8192);
}

#[test]
fn round_up_small_pages_and_idempotence() {
    assert_eq!(round_up_to_page_size(5, 1), 5);
    assert_eq!(round_up_to_page_size(17, 16), 32);
    let once = round_up_to_page_size(12345, 4096);
    assert_eq!(once, 16384);
    assert_eq!(round_up_to_page_size(once, 4096), once);
    assert_eq!(once % 4096, 0);
}

#[test]
fn round_up_non_power_of_two_page_size() {
    assert_eq!(round_up_to_page_size(10, 6), 12);
    assert_eq!(round_up_to_page_size(12, 6), 12);
    assert_eq!(round_up_to_page_size(0, 6), 0);
    assert_eq!(round_up_to_page_size(1, 3000), 3000);
}

fn expect_mapping(step: ReserveStep) -> MapRequest {
    match step {
        ReserveStep::Mapping(q) => q,
        other => panic!("expected a mapping request, got {:?}", other),
    }
}

fn expect_abort(step: ReserveStep) -> Fault {
    match step {
        ReserveStep::Abort(f) => f,
        other => panic!("expected an abort, got {:?}", other),
    }
}

#[test]
fn new_is_empty_and_non_null() {
    let mut m = Mmap::new();
    assert_eq!(m.len(), 0);
    assert_ne!(m.as_ptr(), 0);
    assert_eq!(m.as_mut_ptr(), m.as_ptr());
}

#[test]
fn reserve_empty_mapping_needs_no_system_call() {
    match Mmap::accessible_reserved_for_page_size(0, 0, false, 4096) {
        ReserveStep::Done(Ok(m)) => {
            assert_eq!(m.len(), 0);
            assert_ne!(m.as_ptr(), 0);
        }
        other => panic!("unexpected {:?}", other),
    }
}

#[test]
fn reserve_rejects_bad_arguments() {
    assert_eq!(expect_abort(Mmap::accessible_reserved_for_page_size(8192, 4096, false, 4096)), Fault::BadArgument);
    assert_eq!(expect_abort(Mmap::accessible_reserved_for_page_size(0, 4097, false, 4096)), Fault::BadArgument);
    assert_eq!(expect_abort(Mmap::accessible_reserved_for_page_size(1, 4096, false, 4096)), Fault::BadArgument);
    assert_eq!(expect_abort(Mmap::accessible_reserved_for_page_size(0, 4096, false, 0)), Fault::ArithmeticOverflow);
}

#[test]
fn reserve_chooses_the_protection() {
    let q = expect_mapping(Mmap::accessible_reserved_for_page_size(8192, 8192, true, 4096));
    assert_eq!(q.protection, Protection::JitCode);
    assert_eq!(q.mapping_size, 8192);
    let q = expect_mapping(Mmap::accessible_reserved_for_page_size(8192, 8192, false, 4096));
    assert_eq!(q.protection, Protection::ReadWriteExecute);
    let q = expect_mapping(Mmap::accessible_reserved_for_page_size(4096, 16384, false, 4096));
    assert_eq!(q.protection, Protection::NoAccess);
    assert_eq!(q.accessible_size, 4096);
    assert_eq!(q.mapping_size, 16384);
}

#[test]
fn jit_mapping_is_handed_out_or_fails() {
    let q = expect_mapping(Mmap::accessible_reserved_for_page_size(8192, 8192, true, 4096));
    match q.mapped(0x7000_0000, 0, 0) {
        ReserveStep::Done(Ok(m)) => {
            assert_eq!(m.as_ptr(), 0x7000_0000);
            assert_eq!(m.len(), 8192);
        }
        other => panic!("unexpected {:?}", other),
    }
    match q.mapped(usize::MAX, 0, 0) {
        ReserveStep::Done(Err(message)) => assert!(!message.is_empty()),
        other => panic!("unexpected {:?}", other),
    }
}

#[test]
fn partial_code_reservation_commits_its_prefix() {
    let q = expect_mapping(Mmap::accessible_reserved_for_page_size(4096, 8192, true, 4096));
    assert_eq!(q.protection, Protection::NoAccess);
    let c = match q.mapped(0x10000, 0x20000, 0x30000) {
        ReserveStep::Commit(c) => c,
        other => panic!("unexpected {:?}", other),
    };
    assert_eq!(c.addr, 0x10000);
    assert_eq!(c.len, 4096);
    let m = c.committed(Ok(())).unwrap();
    assert_eq!(m.len(), 8192);
    assert_eq!(expect_abort(q.mapped(0x10000, 0x11000, 0x20000)), Fault::OverlapsCodeRegion);
    assert!(matches!(q.mapped(usize::MAX, 0, 0), ReserveStep::Done(Err(_))));
}

#[test]
fn data_mapping_on_code_region_aborts() {
    let q = expect_mapping(Mmap::accessible_reserved_for_page_size(8192, 8192, false, 4096));
    assert_eq!(expect_abort(q.mapped(0x10000, 0x11000, 0x20000)), Fault::OverlapsCodeRegion);
    assert_eq!(expect_abort(q.mapped(0x10000, 0x0, 0x10000)), Fault::OverlapsCodeRegion);
    assert_eq!(expect_abort(q.mapped(usize::MAX - 4096, 0, 0)), Fault::ArithmeticOverflow);
}

#[test]
fn refused_mapping_returns_the_system_error() {
    for (accessible, mapping, iscode) in [(4096, 4096, false), (4096, 8192, true), (0, 8192, false), (8192, 8192, true)] {
        let q = expect_mapping(Mmap::accessible_reserved_for_page_size(accessible, mapping, iscode, 4096));
        match q.mapped(usize::MAX, 0, 0) {
            ReserveStep::Done(Err(message)) => assert!(!message.is_empty()),
            other => panic!("unexpected {:?}", other),
        }
    }
}

#[test]
fn data_mapping_beside_code_region_is_handed_out() {
    let q = expect_mapping(Mmap::accessible_reserved_for_page_size(8192, 8192, false, 4096));
    match q.mapped(0x10000, 0x20000, 0x30000) {
        ReserveStep::Done(Ok(m)) => {
            assert_eq!(m.as_ptr(), 0x10000);
            assert_eq!(m.len(), 8192);
        }
        other => panic!("unexpected {:?}", other),
    }
    match q.mapped(0x40000, 0x20000, 0x30000) {
        ReserveStep::Done(Ok(m)) => assert_eq!(m.as_ptr(), 0x40000),
        other => panic!("unexpected {:?}", other),
    }
}

#[test]
fn reservation_without_access_needs_no_commit() {
    let q = expect_mapping(Mmap::accessible_reserved_for_page_size(0, 8192, false, 4096));
    match q.mapped(0x10000, 0x20000, 0x30000) {
        ReserveStep::Done(Ok(m)) => assert_eq!(m.len(), 8192),
        other => panic!("unexpected {:?}", other),
    }
}

#[test]
fn reservation_commits_its_accessible_prefix() {
    let q = expect_mapping(Mmap::accessible_reserved_for_page_size(4096, 16384, false, 4096));
    let c = match q.mapped(0x10000, 0x20000, 0x30000) {
        ReserveStep::Commit(c) => c,
        other => panic!("unexpected {:?}", other),
    };
    assert_eq!(c.addr, 0x10000);
    assert_eq!(c.len, 4096);
    assert_eq!(c.mmap.len(), 16384);
    let m = c.committed(Ok(())).unwrap();
    assert_eq!(m.as_ptr(), 0x10000);
    assert_eq!(m.len(), 16384);
}

#[test]
fn failed_commit_passes_the_message_on() {
    let q = expect_mapping(Mmap::accessible_reserved_for_page_size(4096, 16384, false, 4096));
    let c = match q.mapped(0x10000, 0x20000, 0x30000) {
        ReserveStep::Commit(c) => c,
        other => panic!("unexpected {:?}", other),
    };
    assert_eq!(c.committed(Err("no memory".to_string())).unwrap_err(), "no memory");
}

#[test]
fn with_at_least_rounds_up_and_makes_all_accessible() {
    let q = expect_mapping(Mmap::with_at_least_for_page_size(1, false, 4096));
    assert_eq!(q.mapping_size, 4096);
    assert_eq!(q.accessible_size, 4096);
    assert_eq!(q.protection, Protection::ReadWriteExecute);
    let q = expect_mapping(Mmap::with_at_least_for_page_size(4097, true, 4096));
    assert_eq!(q.mapping_size, 8192);
    assert_eq!(q.protection, Protection::JitCode);
    match Mmap::with_at_least_for_page_size(0, false, 4096) {
        ReserveStep::Done(Ok(m)) => assert_eq!(m.len(), 0),
        other => panic!("unexpected {:?}", other),
    }
    assert_eq!(expect_abort(Mmap::with_at_least_for_page_size(usize::MAX, false, 4096)), Fault::ArithmeticOverflow);
    assert_eq!(expect_abort(Mmap::with_at_least_for_page_size(1, false, 0)), Fault::ArithmeticOverflow);
}

#[test]
fn with_at_least_uses_the_system_page_size() {
    let page = region::page::size();
    let q = expect_mapping(Mmap::with_at_least(1, false));
    assert_eq!(q.mapping_size, page);
    assert_eq!(q.page_size, page);
    let q = expect_mapping(Mmap::accessible_reserved(page, 2 * page, false));
    assert_eq!(q.page_size, page);
    assert_eq!(q.protection, Protection::NoAccess);
}

fn four_pages_at(addr: usize) -> Mmap {
    let q = expect_mapping(Mmap::accessible_reserved_for_page_size(16384, 16384, true, 4096));
    match q.mapped(addr, 0, 0) {
        ReserveStep::Done(Ok(m)) => m,
        other => panic!("unexpected {:?}", other),
    }
}

#[test]
fn make_accessible_checks_the_range() {
    let m = four_pages_at(0x10000);
    assert_eq!(m.make_accessible_for_page_size(4096, 8192, 4096), AccessStep::Protect { addr: 0x11000, len: 8192 });
    assert_eq!(m.make_accessible_for_page_size(0, 4096, 4096), AccessStep::Protect { addr: 0x10000, len: 4096 });
    assert_eq!(m.make_accessible_for_page_size(1, 4096, 4096), AccessStep::Abort(Fault::BadArgument));
    assert_eq!(m.make_accessible_for_page_size(0, 100, 4096), AccessStep::Abort(Fault::BadArgument));
    assert_eq!(m.make_accessible_for_page_size(0, 16384, 4096), AccessStep::Protect { addr: 0x10000, len: 16384 });
    assert_eq!(m.make_accessible_for_page_size(12288, 4096, 4096), AccessStep::Protect { addr: 0x13000, len: 4096 });
    assert_eq!(m.make_accessible_for_page_size(16384, 0, 4096), AccessStep::Protect { addr: 0x14000, len: 0 });
    assert_eq!(m.make_accessible_for_page_size(8192, 12288, 4096), AccessStep::Abort(Fault::BadArgument));
    assert_eq!(m.make_accessible_for_page_size(0, 20480, 4096), AccessStep::Abort(Fault::BadArgument));
    assert_eq!(m.make_accessible_for_page_size(20480, 0, 4096), AccessStep::Abort(Fault::BadArgument));
    assert_eq!(m.make_accessible_for_page_size(0, 4096, 0), AccessStep::Abort(Fault::ArithmeticOverflow));
}

#[test]
fn make_accessible_uses_the_system_page_size() {
    let page = region::page::size();
    let mut m = four_pages_at(0x100000);
    let expected = m.make_accessible_for_page_size(page, page, page);
    assert_eq!(m.make_accessible(page, page), expected);
    assert_eq!(m.make_accessible(1, page), AccessStep::Abort(Fault::BadArgument));
}
