use project_analyzer::def::{Instance, ItemId, StaticId};
use project_analyzer::mono::{MonoItem, MonoItems};
use project_analyzer::span::{dummy_sp, dummy_spanned, respan, Span, Spanned};

fn function(index: usize) -> MonoItem {
    MonoItem::Fn(Instance { index })
}

fn at(lo: u32, hi: u32) -> Span {
    Span { lo, hi }
}

#[test]
fn new_collection_is_empty() {
    let items = MonoItems::new();
    assert!(items.is_empty());
    assert_eq!(items.items(), vec![]);
    assert_eq!(items.into_iter(), vec![]);
}

#[test]
fn collection_with_an_item_is_not_empty() {
    let mut items = MonoItems::new();
    items.push(dummy_spanned(function(0)));
    assert!(!items.is_empty());
}

#[test]
fn pushing_twice_keeps_one() {
    let mut items = MonoItems::new();
    items.push(dummy_spanned(function(3)));
    items.push(dummy_spanned(function(3)));
    assert_eq!(items.items(), vec![function(3)]);
}

#[test]
fn first_place_wins() {
    let mut items = MonoItems::new();
    items.push(respan(at(10, 20), function(3)));
    items.push(respan(at(30, 40), function(3)));
    assert_eq!(
        items.into_iter(),
        vec![Spanned {
            node: function(3),
            span: at(10, 20)
        }]
    );
}

#[test]
fn order_is_that_of_the_first_request() {
    let mut items = MonoItems::new();
    for index in [9, 2, 7, 2, 9, 1] {
        items.push(dummy_spanned(function(index)));
    }
    assert_eq!(
        items.items(),
        vec![function(9), function(2), function(7), function(1)]
    );
}

#[test]
fn kinds_with_the_same_number_are_different() {
    let mut items = MonoItems::new();
    let all = vec![
        MonoItem::GlobalAsm(ItemId { index: 5 }),
        MonoItem::Static(StaticId { index: 5 }),
        MonoItem::Fn(Instance { index: 5 }),
    ];
    for item in &all {
        items.push(dummy_spanned(*item));
    }
    assert_eq!(items.items(), all);
}

#[test]
fn extending_is_pushing_one_after_the_other() {
    let requests = vec![
        respan(at(1, 2), function(4)),
        respan(at(3, 4), function(8)),
        respan(at(5, 6), function(4)),
    ];
    let mut extended = MonoItems::new();
    extended.push(respan(at(0, 1), function(8)));
    extended.extend(requests.clone());
    let mut pushed = MonoItems::new();
    pushed.push(respan(at(0, 1), function(8)));
    for item in requests {
        pushed.push(item);
    }
    let expected = vec![respan(at(0, 1), function(8)), respan(at(1, 2), function(4))];
    assert_eq!(extended.into_iter(), expected);
    assert_eq!(pushed.into_iter(), expected);
}

#[test]
fn extending_again_changes_nothing() {
    let requests = vec![
        dummy_spanned(function(1)),
        dummy_spanned(function(0)),
        dummy_spanned(function(1)),
    ];
    let mut items = MonoItems::new();
    items.extend(requests.clone());
    let once = items.items();
    items.extend(requests);
    assert_eq!(items.items(), once);
    assert_eq!(once, vec![function(1), function(0)]);
}

#[test]
fn what_comes_out_makes_the_same_collection() {
    let mut items = MonoItems::new();
    items.push(respan(at(1, 2), function(6)));
    items.push(respan(at(3, 4), MonoItem::Static(StaticId { index: 6 })));
    let out = items.into_iter();
    let mut again = MonoItems::new();
    again.extend(out.clone());
    assert_eq!(again.into_iter(), out);
}

#[test]
fn large_numbers_are_kept() {
    let mut items = MonoItems::new();
    items.push(dummy_spanned(function(usize::MAX)));
    assert_eq!(items.items(), vec![function(usize::MAX)]);
}

#[test]
fn the_dummy_place_is_at_zero() {
    assert_eq!(dummy_sp(), at(0, 0));
    assert_eq!(dummy_spanned(7u8), respan(at(0, 0), 7u8));
}
