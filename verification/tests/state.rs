use homepage_server::shared_state::{AdmitOutcome, SharedState, MAX_CONCURRENT_ACCESSORS};

fn ordinal(r: AdmitOutcome) -> usize {
    match r {
        AdmitOutcome::Admitted(n) => n,
        AdmitOutcome::Busy => panic!("unexpectedly busy"),
    }
}

#[test]
fn enter_hands_back_access_ordinals() {
    let mut s = SharedState::new();
    let p = String::from("/home/a/www/x");
    assert_eq!(ordinal(s.enter(&p)), 0);
    assert_eq!(ordinal(s.enter(&p)), 1);
    assert_eq!(ordinal(s.enter(&p)), 2);
    assert_eq!(s.accessor_count("/home/a/www/x"), 3);
    s.complete("/home/a/www/x");
    assert_eq!(s.accessor_count("/home/a/www/x"), 2);
    assert_eq!(ordinal(s.enter(&p)), 2);
}

#[test]
fn over_admission_turns_busy() {
    let mut s = SharedState::new();
    let p = String::from("/home/a/www/hot");
    for k in 0..MAX_CONCURRENT_ACCESSORS {
        assert_eq!(ordinal(s.enter(&p)), k);
    }
    // with the cap reached, the next concurrent request is turned away
    assert!(matches!(s.enter(&p), AdmitOutcome::Busy));
    // other paths are unaffected
    let q = String::from("/home/b/www/cool");
    assert_eq!(ordinal(s.enter(&q)), 0);
    // one completion frees a slot
    s.complete(&p);
    assert_eq!(ordinal(s.enter(&p)), MAX_CONCURRENT_ACCESSORS - 1);
}

#[test]
fn counts_drop_to_zero_and_entries_vanish() {
    let mut s = SharedState::new();
    let p = String::from("/home/a/www/y");
    s.enter(&p);
    s.enter(&p);
    s.complete(&p);
    assert_eq!(s.accessor_count(&p), 1);
    s.complete(&p);
    assert_eq!(s.accessor_count(&p), 0);
    // the entry is gone: a fresh admission starts at ordinal zero again
    assert_eq!(ordinal(s.enter(&p)), 0);
}

#[test]
fn cache_install_policy() {
    let mut s = SharedState::new();
    let p = String::from("/home/a/www/big.bin");
    let o1 = ordinal(s.enter(&p)); // first viewer: ordinal 0
    let o2 = ordinal(s.enter(&p)); // second viewer: ordinal 1
    assert_eq!((o1, o2), (0, 1));
    let body = vec![7u8; 1024];

    // the first viewer (ordinal 0) may not install
    assert!(!s.try_install(&p, o1, body.clone()));
    assert_eq!(s.cache_bytes(), 0);

    // the second viewer installs
    assert!(s.try_install(&p, o2, body.clone()));
    assert_eq!(s.cache_bytes(), 1024);
    assert_eq!(s.cache_lookup(&p).unwrap(), body);

    // at most one install: a repeat attempt is refused and changes nothing
    assert!(!s.try_install(&p, 1, vec![9u8; 64]));
    assert_eq!(s.cache_bytes(), 1024);
    assert_eq!(s.cache_lookup(&p).unwrap(), body);

    // a third request within the hold is served from cache
    let o3 = ordinal(s.enter(&p));
    assert_eq!(o3, 2);
    assert!(s.cache_lookup(&p).is_some());

    // the cache bytes leave the budget when the last accessor completes
    s.complete(&p);
    s.complete(&p);
    assert_eq!(s.cache_bytes(), 1024);
    s.complete(&p);
    assert_eq!(s.cache_bytes(), 0);
    assert!(s.cache_lookup(&p).is_none());
}

#[test]
fn oversized_objects_are_never_cached() {
    let mut s = SharedState::new();
    let p = String::from("/home/a/www/huge");
    s.enter(&p);
    s.enter(&p);
    // 50 MiB is already too large ("below" is strict)
    let too_big = vec![0u8; 50 * 1024 * 1024];
    assert!(!s.try_install(&p, 1, too_big));
    assert_eq!(s.cache_bytes(), 0);
}

#[test]
fn install_needs_a_live_entry() {
    let mut s = SharedState::new();
    assert!(!s.try_install("/home/a/www/ghost", 1, vec![1, 2, 3]));
    assert_eq!(s.cache_bytes(), 0);
}

#[test]
fn conservation_across_many_paths() {
    let mut s = SharedState::new();
    let names: Vec<String> = (0..5).map(|i| format!("/home/u/www/f{}", i)).collect();
    let mut expected: usize = 0;
    for (i, p) in names.iter().enumerate() {
        s.enter(p);
        s.enter(p);
        let blob = vec![i as u8; (i + 1) * 100];
        assert!(s.try_install(p, 1, blob));
        expected += (i + 1) * 100;
        assert_eq!(s.cache_bytes(), expected);
    }
    for (i, p) in names.iter().enumerate() {
        s.complete(p);
        s.complete(p);
        expected -= (i + 1) * 100;
        assert_eq!(s.cache_bytes(), expected);
    }
    assert_eq!(s.cache_bytes(), 0);
}
