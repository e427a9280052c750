use project_analyzer::coroutine::{is_reported, reported, reported_places, Coroutine};

/// The size of a future that is pending once and holds `n` bytes besides.
fn pend_once(n: u64) -> u64 {
    1 + n
}

fn coroutine(awaits: Vec<Vec<u64>>) -> Coroutine {
    Coroutine {
        captured: vec![],
        awaits,
    }
}

fn check(awaits: Vec<Vec<u64>>, lower_bound: u64, predicted: u64, observed: u64) {
    let c = coroutine(awaits);
    assert_eq!(c.lower_bound(), Some(lower_bound));
    assert_eq!(c.predicted_size(), Some(predicted));
    assert_eq!(predicted, observed);
    assert!(c.is_plausible(observed, 0));
    assert!(!c.is_plausible(lower_bound - 1, 8));
    assert!(c.is_plausible(predicted + 8, 8));
    assert!(!c.is_plausible(predicted + 9, 8));
}

#[test]
fn empty() {
    check(vec![], 1, 1, 1);
}

#[test]
fn locals_no_await() {
    check(vec![], 1, 1, 1);
}

#[test]
fn await_one_byte() {
    check(vec![vec![pend_once(0)]], 1, 2, 2);
}

#[test]
fn await_257() {
    check(vec![vec![pend_once(256)]], 257, 258, 258);
}

#[test]
fn data_across_await() {
    check(vec![vec![1024, pend_once(0)]], 1025, 1026, 1026);
}

#[test]
fn data_dropped_before_await() {
    check(vec![vec![pend_once(0)]], 1, 2, 2);
}

#[test]
fn sequential_awaits() {
    check(
        vec![vec![pend_once(256)], vec![pend_once(128)]],
        257,
        258,
        258,
    );
    check(
        vec![vec![pend_once(128)], vec![pend_once(256)]],
        257,
        258,
        258,
    );
}

#[test]
fn nested_inner_small() {
    check(vec![vec![pend_once(0)]], 1, 2, 2);
}

#[test]
fn nested_outer_small() {
    let inner = coroutine(vec![vec![pend_once(0)]]);
    check(vec![vec![inner.predicted_size().unwrap()]], 2, 3, 3);
}

#[test]
fn nested_inner_big() {
    check(vec![vec![pend_once(256)]], 257, 258, 258);
}

#[test]
fn nested_outer_big() {
    let inner = coroutine(vec![vec![pend_once(256)]]);
    check(vec![vec![inner.predicted_size().unwrap()]], 258, 259, 259);
}

#[test]
fn two_live_across_await() {
    check(vec![vec![512, 512, pend_once(0)]], 1025, 1026, 1026);
}

#[test]
fn what_is_captured_counts_without_an_await() {
    let c = Coroutine {
        captured: vec![128],
        awaits: vec![],
    };
    assert_eq!(c.predicted_size(), Some(129));
    assert_eq!(c.lower_bound(), Some(1));
    assert!(c.is_plausible(129, 8));
    assert!(c.is_plausible(137, 8));
    assert!(!c.is_plausible(138, 8));
    assert!(!c.is_plausible(0, 8));
}

#[test]
fn what_is_captured_counts_beside_what_lives_across_an_await() {
    let c = Coroutine {
        captured: vec![100, 28],
        awaits: vec![vec![pend_once(0)], vec![64]],
    };
    assert_eq!(c.predicted_size(), Some(129));
    assert_eq!(c.lower_bound(), Some(64));
    assert!(c.is_plausible(64, 0));
    assert!(c.is_plausible(129, 0));
    assert!(!c.is_plausible(130, 0));
    let c = Coroutine {
        captured: vec![128],
        awaits: vec![vec![128, pend_once(256)]],
    };
    assert_eq!(c.predicted_size(), Some(386));
    assert_eq!(c.lower_bound(), Some(385));
    assert!(!c.is_plausible(384, 8));
}

#[test]
fn small_coroutines_are_not_reported() {
    assert!(!is_reported(999));
    assert!(is_reported(1000));
    assert!(is_reported(1026));
    assert!(!is_reported(259));
    assert_eq!(
        reported(&vec![1, 1026, 999, 1000, 258, 1026]),
        vec![1026, 1000, 1026]
    );
    assert_eq!(reported(&vec![999]), vec![]);
}

#[test]
fn the_places_of_large_coroutines_are_reported() {
    let sizes = vec![1, 1026, 999, 1000, 258, 1026];
    let places = reported_places(&sizes);
    assert_eq!(places, vec![1, 3, 5]);
    let at_places: Vec<u64> = places.iter().map(|&place| sizes[place]).collect();
    assert_eq!(at_places, reported(&sizes));
    assert_eq!(reported_places(&vec![999, 0]), vec![]);
    assert_eq!(reported_places(&vec![]), vec![]);
    assert_eq!(reported_places(&vec![u64::MAX]), vec![0]);
}

#[test]
fn sizes_that_do_not_fit() {
    let most = coroutine(vec![vec![u64::MAX]]);
    assert_eq!(most.lower_bound(), Some(u64::MAX));
    assert_eq!(most.predicted_size(), None);
    assert!(most.is_plausible(u64::MAX, 0));
    assert!(!most.is_plausible(u64::MAX - 1, 0));
    let more = coroutine(vec![vec![1], vec![u64::MAX, 1]]);
    assert_eq!(more.lower_bound(), None);
    assert_eq!(more.predicted_size(), None);
    assert!(!more.is_plausible(u64::MAX, u64::MAX));
    let captured = Coroutine {
        captured: vec![u64::MAX, 1],
        awaits: vec![vec![7]],
    };
    assert_eq!(captured.lower_bound(), Some(7));
    assert_eq!(captured.predicted_size(), None);
    assert!(captured.is_plausible(u64::MAX, 0));
    assert!(!captured.is_plausible(6, 0));
}
