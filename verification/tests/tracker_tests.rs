use factor_trace::Digits;
use factor_trace::FactorClass;
use factor_trace::ProtocolError;
use factor_trace::VerboseFactoring;

fn d(n: u64) -> Digits {
    Digits::from_u64(n)
}

fn prime_strings(t: &VerboseFactoring) -> Vec<Vec<u8>> {
    t.primes().iter().map(|p| p.bytes().clone()).collect()
}

fn unknown_strings(t: &VerboseFactoring) -> Vec<Vec<u8>> {
    t.unknown().iter().map(|p| p.bytes().clone()).collect()
}

#[test]
fn new_tracker_has_single_root_entry() {
    let t = VerboseFactoring::new(d(12), false);
    assert_eq!(t.entries().len(), 1);
    assert_eq!(t.entries()[0].value.bytes().as_slice(), b"12");
    assert!(t.entries()[0].children.is_empty());
    assert!(t.primes().is_empty());
    assert!(t.unknown().is_empty());
    assert!(!t.historic());
}

#[test]
fn scenario_full_factorization_of_twelve() {
    // 12 = 2 * 6, 6 = 2 * 3, driven event by event in historical mode.
    let mut t = VerboseFactoring::new(d(12), true);
    t.factorized(&d(12), &vec![], &vec![], &vec![d(2), d(6)]);
    t.is_prime(&d(2)).unwrap();
    t.is_composite(&d(6)).unwrap();
    t.factorized(&d(6), &vec![], &vec![], &vec![d(2), d(3)]);
    t.is_prime(&d(2)).unwrap();
    t.is_prime(&d(3)).unwrap();

    let primes = prime_strings(&t);
    assert_eq!(primes, vec![b"2".to_vec(), b"2".to_vec(), b"3".to_vec()]);
    let mut sorted = primes.clone();
    sorted.sort();
    assert_eq!(primes, sorted);

    // Everything resolved: nothing pending, no entry left unexpanded.
    assert!(t.unknown().is_empty());
    for e in t.entries() {
        assert!(!e.children.is_empty());
    }
}

#[test]
fn prime_confirmed_for_absent_value_fails_and_leaves_model_unchanged() {
    let mut t = VerboseFactoring::new(d(10), false);
    t.factorized(&d(10), &vec![], &vec![], &vec![d(5)]);
    let before_primes = prime_strings(&t);
    let before_unknown = unknown_strings(&t);
    let before_entries = t.entries().len();
    let before_frame = t.print_state();

    let r = t.is_prime(&d(7));
    assert_eq!(r, Err(ProtocolError::NotPending));

    assert_eq!(prime_strings(&t), before_primes);
    assert_eq!(unknown_strings(&t), before_unknown);
    assert_eq!(t.entries().len(), before_entries);
    assert_eq!(t.print_state(), before_frame);
}

#[test]
fn composite_confirmed_for_absent_value_fails() {
    let mut t = VerboseFactoring::new(d(9), false);
    let r = t.is_composite(&d(3));
    assert_eq!(r, Err(ProtocolError::NotPending));
    assert_eq!(t.entries().len(), 1);
    assert!(t.unknown().is_empty());
}

#[test]
fn shared_child_updated_in_both_entries() {
    // The value 4 ends up as a child of two different expansions of 8; one
    // composite verdict reclassifies both occurrences.
    let mut t = VerboseFactoring::new(d(64), true);
    t.factorized(&d(64), &vec![], &vec![], &vec![d(8), d(8)]);
    t.is_composite(&d(8)).unwrap();
    t.is_composite(&d(8)).unwrap();
    t.factorized(&d(8), &vec![], &vec![], &vec![d(2), d(4)]);
    t.factorized(&d(8), &vec![], &vec![], &vec![d(2), d(4)]);

    let holders: Vec<usize> = t
        .entries()
        .iter()
        .enumerate()
        .filter(|(_, e)| e.children.iter().any(|c| c.value.bytes().as_slice() == b"4"))
        .map(|(i, _)| i)
        .collect();
    assert_eq!(holders.len(), 2);
    assert_ne!(holders[0], holders[1]);
    for &i in &holders {
        for c in &t.entries()[i].children {
            if c.value.bytes().as_slice() == b"4" {
                assert_eq!(c.class, FactorClass::Unknown);
            }
        }
    }

    t.is_composite(&d(4)).unwrap();
    for &i in &holders {
        for c in &t.entries()[i].children {
            if c.value.bytes().as_slice() == b"4" {
                assert_eq!(c.class, FactorClass::Composite);
            }
        }
    }
}

#[test]
fn primes_kept_sorted_lexicographically_after_each_mutation() {
    let mut t = VerboseFactoring::new(d(1000), false);
    t.factorized(&d(1000), &vec![d(10), d(2), d(3)], &vec![], &vec![]);
    assert_eq!(
        prime_strings(&t),
        vec![b"10".to_vec(), b"2".to_vec(), b"3".to_vec()]
    );
    t.factorized(&d(1000), &vec![], &vec![], &vec![d(11)]);
    t.is_prime(&d(11)).unwrap();
    assert_eq!(
        prime_strings(&t),
        vec![b"10".to_vec(), b"11".to_vec(), b"2".to_vec(), b"3".to_vec()]
    );
}

#[test]
fn factorization_step_for_unseen_parent_appends_fallback_entry() {
    let mut t = VerboseFactoring::new(d(12), false);
    t.factorized(&d(7), &vec![d(7)], &vec![], &vec![]);
    assert_eq!(t.entries().len(), 2);
    assert_eq!(t.entries()[0].value.bytes().as_slice(), b"12");
    assert!(t.entries()[0].children.is_empty());
    assert_eq!(t.entries()[1].value.bytes().as_slice(), b"7");
    assert_eq!(t.entries()[1].children.len(), 1);
    assert_eq!(t.entries()[1].children[0].value.bytes().as_slice(), b"7");
    assert_eq!(t.entries()[1].children[0].class, FactorClass::Prime);
}

#[test]
fn new_composites_get_entries_and_children_in_order() {
    let mut t = VerboseFactoring::new(d(60), false);
    t.factorized(&d(60), &vec![d(2)], &vec![d(30)], &vec![d(7)]);
    // Entries: the root (now expanded) and the new leaf for 30.
    assert_eq!(t.entries().len(), 2);
    assert_eq!(t.entries()[1].value.bytes().as_slice(), b"30");
    assert!(t.entries()[1].children.is_empty());
    let kids = &t.entries()[0].children;
    assert_eq!(kids.len(), 3);
    assert_eq!(kids[0].value.bytes().as_slice(), b"2");
    assert_eq!(kids[0].class, FactorClass::Prime);
    assert_eq!(kids[1].value.bytes().as_slice(), b"30");
    assert_eq!(kids[1].class, FactorClass::Composite);
    assert_eq!(kids[2].value.bytes().as_slice(), b"7");
    assert_eq!(kids[2].class, FactorClass::Unknown);
    assert_eq!(unknown_strings(&t), vec![b"7".to_vec()]);
}

fn check_invariant(t: &VerboseFactoring) {
    // Every pending value appears as an Unknown-classified child somewhere
    // and is not among the confirmed primes; the prime list is sorted.
    for u in t.unknown() {
        let found = t.entries().iter().any(|e| {
            e.children
                .iter()
                .any(|c| c.value.bytes() == u.bytes() && c.class == FactorClass::Unknown)
        });
        assert!(found);
        assert!(t.primes().iter().all(|p| p.bytes() != u.bytes()));
    }
    let primes = prime_strings(t);
    let mut sorted = primes.clone();
    sorted.sort();
    assert_eq!(primes, sorted);
    assert!(!t.entries().is_empty());
}

#[test]
fn invariant_holds_after_every_event_of_a_valid_stream() {
    let mut t = VerboseFactoring::new(d(90), false);
    check_invariant(&t);
    t.factorized(&d(90), &vec![d(2)], &vec![], &vec![d(45)]);
    check_invariant(&t);
    t.is_composite(&d(45)).unwrap();
    check_invariant(&t);
    t.factorized(&d(45), &vec![d(5)], &vec![], &vec![d(9)]);
    check_invariant(&t);
    t.is_composite(&d(9)).unwrap();
    check_invariant(&t);
    t.factorized(&d(9), &vec![d(3), d(3)], &vec![], &vec![]);
    check_invariant(&t);
    assert!(t.unknown().is_empty());
}
