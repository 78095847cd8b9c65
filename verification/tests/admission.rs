use netpulse::admission::AdmissionController;

#[test]
fn capacity_never_exceeded() {
    // Capacity 2, 5 simultaneous requests: at every sampled instant the
    // number of granted, unreleased permits stays at or below the capacity.
    let mut pool = AdmissionController::new(2);
    let mut granted: usize = 0;
    for _ in 0..5 {
        if pool.try_acquire() {
            granted += 1;
        }
        assert!(pool.outstanding() <= pool.limit());
    }
    assert_eq!(granted, 2);
    assert_eq!(pool.outstanding(), 2);
}

#[test]
fn release_frees_a_permit() {
    let mut pool = AdmissionController::new(1);
    assert!(pool.try_acquire());
    assert!(!pool.try_acquire());
    pool.release();
    assert_eq!(pool.outstanding(), 0);
    assert!(pool.try_acquire());
    assert!(pool.outstanding() <= pool.limit());
}

#[test]
fn zero_capacity_admits_nothing() {
    let mut pool = AdmissionController::new(0);
    assert!(!pool.try_acquire());
    assert_eq!(pool.outstanding(), 0);
}
