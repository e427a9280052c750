//! What code is generated for, and the collection that gathers it.

use crate::def::Instance;
use crate::def::ItemId;
use crate::def::StaticId;
use crate::fx;
use crate::span::respan;
use crate::span::Span;
use crate::span::Spanned;
use rustc_data_structures::fx::FxIndexMap;
use vstd::prelude::*;

verus! {

/// Something that code is generated for.
#[derive(Clone, Copy, PartialEq, Eq, Structural, Debug, Hash)]
pub enum MonoItem {
    Fn(Instance),
    Static(StaticId),
    GlobalAsm(ItemId),
}

/// Some element of `s` carries `node`.
pub open spec fn has_node(s: Seq<Spanned<MonoItem>>, node: MonoItem) -> bool {
    exists|i: int| 0 <= i < s.len() && (#[trigger] s[i]).node == node
}

/// No two elements of `s` carry the same item.
pub open spec fn distinct_nodes(s: Seq<Spanned<MonoItem>>) -> bool {
    forall|i: int, j: int| 0 <= i < j < s.len() ==> (#[trigger] s[i]).node != (#[trigger] s[j]).node
}

/// `s` after one more request: at the end if it is new, else unchanged.
pub open spec fn inserted(s: Seq<Spanned<MonoItem>>, item: Spanned<MonoItem>) -> Seq<
    Spanned<MonoItem>,
> {
    if has_node(s, item.node) {
        s
    } else {
        s.push(item)
    }
}

/// `s` after the requests of `items`, one after the other.
pub open spec fn extended(s: Seq<Spanned<MonoItem>>, items: Seq<Spanned<MonoItem>>) -> Seq<
    Spanned<MonoItem>,
>
    decreases items.len(),
{
    if items.len() == 0 {
        s
    } else {
        inserted(extended(s, items.drop_last()), items.last())
    }
}

/// The items of `s` without their places.
pub open spec fn nodes(s: Seq<Spanned<MonoItem>>) -> Seq<MonoItem> {
    s.map_values(|item: Spanned<MonoItem>| item.node)
}

/// The key under which an item is kept: which kind it is, and which one of it.
spec fn key_of(item: MonoItem) -> (u8, usize) {
    match item {
        MonoItem::Fn(instance) => (0u8, instance.index),
        MonoItem::Static(id) => (1u8, id.index),
        MonoItem::GlobalAsm(id) => (2u8, id.index),
    }
}

/// The item that is kept under a key.
spec fn item_of(key: (u8, usize)) -> MonoItem {
    if key.0 == 0 {
        MonoItem::Fn(Instance { index: key.1 })
    } else if key.0 == 1 {
        MonoItem::Static(StaticId { index: key.1 })
    } else {
        MonoItem::GlobalAsm(ItemId { index: key.1 })
    }
}

fn encode(item: MonoItem) -> (key: (u8, usize))
    ensures
        key == key_of(item),
{
    match item {
        MonoItem::Fn(instance) => (0u8, instance.index),
        MonoItem::Static(id) => (1u8, id.index),
        MonoItem::GlobalAsm(id) => (2u8, id.index),
    }
}

fn decode(key: (u8, usize)) -> (item: MonoItem)
    ensures
        item == item_of(key),
{
    if key.0 == 0 {
        MonoItem::Fn(Instance { index: key.1 })
    } else if key.0 == 1 {
        MonoItem::Static(StaticId { index: key.1 })
    } else {
        MonoItem::GlobalAsm(ItemId { index: key.1 })
    }
}

/// The element that an entry of the map stands for.
spec fn element_of(entry: ((u8, usize), Span)) -> Spanned<MonoItem> {
    Spanned { node: item_of(entry.0), span: entry.1 }
}

/// The items that have been asked for, each once, in the order in which they
/// were first asked for, each with the place that asked first.
pub struct MonoItems {
    // We want a set of items with their places where asking for an item again from another place
    // is ignored. A map does that, but it looks odd.
    items: FxIndexMap<(u8, usize), Span>,
}

impl View for MonoItems {
    type V = Seq<Spanned<MonoItem>>;

    closed spec fn view(&self) -> Seq<Spanned<MonoItem>> {
        fx::entries(self.items).map_values(|e: ((u8, usize), Span)| element_of(e))
    }
}

impl MonoItems {
    /// Every key of the map stands for an item, and no two for the same one.
    pub closed spec fn inv(self) -> bool {
        &&& forall|i: int|
            0 <= i < fx::entries(self.items).len() ==> (#[trigger] fx::entries(self.items)[i]).0.0
                <= 2
        &&& distinct_nodes(self@)
    }

    /// An empty collection.
    pub fn new() -> (res: MonoItems)
        ensures
            res.inv(),
            res@ == Seq::<Spanned<MonoItem>>::empty(),
    {
        let res = MonoItems { items: fx::new_map() };
        assert(res@ =~= Seq::<Spanned<MonoItem>>::empty());
        res
    }

    /// Whether nothing has been asked for.
    pub fn is_empty(&self) -> (res: bool)
        ensures
            res == (self@.len() == 0),
    {
        fx::is_empty(&self.items)
    }

    /// Asks for `item`. It is added only if it is not there yet: an ordinary
    /// insert would overwrite the first place that asked.
    pub fn push(&mut self, item: Spanned<MonoItem>)
        requires
            old(self).inv(),
        ensures
            final(self).inv(),
            final(self)@ == inserted(old(self)@, item),
    {
        let ghost before = fx::entries(self.items);
        let key = encode(item.node);
        fx::entry_or_insert(&mut self.items, key, item.span);
        proof {
            let old_view = old(self)@;
            assert(item_of(key) == item.node);
            if fx::has_key(before, key) {
                let i = choose|i: int| 0 <= i < before.len() && (#[trigger] before[i]).0 == key;
                assert(old_view[i].node == item.node);
            } else {
                assert forall|i: int| 0 <= i < old_view.len() implies (#[trigger] old_view[i]).node
                    != item.node by {
                    assert(before[i].0 != key);
                    assert(old_view[i] == element_of(before[i]));
                }
                assert(self@ =~= old_view.push(item));
            }
        }
    }

    /// The items, in the order in which they were first asked for.
    pub fn items(&self) -> (res: Vec<MonoItem>)
        ensures
            res@ == nodes(self@),
    {
        let keys = fx::keys(&self.items);
        let mut res: Vec<MonoItem> = Vec::new();
        let mut i: usize = 0;
        while i < keys.len()
            invariant
                i <= keys.len(),
                keys@ == fx::entries(self.items).map_values(|e: ((u8, usize), Span)| e.0),
                res@.len() == i,
                forall|j: int| 0 <= j < i ==> res@[j] == item_of(#[trigger] keys@[j]),
            decreases keys.len() - i,
        {
            res.push(decode(keys[i]));
            i += 1;
        }
        proof {
            assert forall|j: int| 0 <= j < res@.len() implies res@[j] == nodes(self@)[j] by {
                assert(keys@[j] == fx::entries(self.items)[j].0);
            }
            assert(res@ =~= nodes(self@));
        }
        res
    }

    /// The items with the places that first asked for them, in that order.
    pub fn into_iter(self) -> (res: Vec<Spanned<MonoItem>>)
        ensures
            res@ == self@,
    {
        let ghost all = self@;
        let pairs = fx::into_entries(self.items);
        let mut res: Vec<Spanned<MonoItem>> = Vec::new();
        let mut i: usize = 0;
        while i < pairs.len()
            invariant
                i <= pairs.len(),
                res@.len() == i,
                forall|j: int| 0 <= j < i ==> res@[j] == element_of(#[trigger] pairs@[j]),
            decreases pairs.len() - i,
        {
            res.push(respan(pairs[i].1, decode(pairs[i].0)));
            i += 1;
        }
        assert(res@ =~= all);
        res
    }

    /// Asks for each of `items`, one after the other.
    pub fn extend(&mut self, items: Vec<Spanned<MonoItem>>)
        requires
            old(self).inv(),
        ensures
            final(self).inv(),
            final(self)@ == extended(old(self)@, items@),
    {
        let mut i: usize = 0;
        while i < items.len()
            invariant
                i <= items.len(),
                self.inv(),
                self@ == extended(old(self)@, items@.take(i as int)),
            decreases items.len() - i,
        {
            self.push(items[i]);
            assert(items@.take(i + 1).drop_last() =~= items@.take(i as int));
            i += 1;
        }
        assert(items@.take(items@.len() as int) =~= items@);
    }
}

/// To ask for `a` and then for `b` is to ask for both in that order.
pub proof fn lemma_extended_append(
    s: Seq<Spanned<MonoItem>>,
    a: Seq<Spanned<MonoItem>>,
    b: Seq<Spanned<MonoItem>>,
)
    ensures
        extended(s, a + b) == extended(extended(s, a), b),
    decreases b.len(),
{
    if b.len() == 0 {
        assert(a + b =~= a);
    } else {
        lemma_extended_append(s, a, b.drop_last());
        assert((a + b).drop_last() =~= a + b.drop_last());
        assert((a + b).last() == b.last());
    }
}

/// To ask for nothing changes nothing, and to ask for one item is to push it.
pub proof fn lemma_extended_one(s: Seq<Spanned<MonoItem>>)
    ensures
        extended(s, seq![]) == s,
        forall|item: Spanned<MonoItem>| #[trigger]
            extended(s, seq![item]) == inserted(s, item),
{
    assert forall|item: Spanned<MonoItem>| #[trigger]
        extended(s, seq![item]) == inserted(s, item) by {
        reveal_with_fuel(extended, 2);
        assert(seq![item].drop_last() =~= Seq::<Spanned<MonoItem>>::empty());
    }
}

/// What is in a collection after `items` have been asked for is what was in it
/// before, and `items`.
pub proof fn lemma_extended_nodes(s: Seq<Spanned<MonoItem>>, items: Seq<Spanned<MonoItem>>)
    ensures
        forall|node: MonoItem| #[trigger]
            has_node(extended(s, items), node) <==> has_node(s, node) || has_node(items, node),
    decreases items.len(),
{
    if items.len() > 0 {
        let before = extended(s, items.drop_last());
        lemma_extended_nodes(s, items.drop_last());
        assert forall|node: MonoItem| #[trigger]
            has_node(extended(s, items), node) <==> has_node(s, node) || has_node(items, node) by {
            let after = extended(s, items);
            assert(has_node(before, node) <==> has_node(s, node) || has_node(
                items.drop_last(),
                node,
            ));
            if has_node(after, node) {
                let i = choose|i: int| 0 <= i < after.len() && (#[trigger] after[i]).node == node;
                if i < before.len() {
                    assert(before[i].node == node);
                } else {
                    assert(items[items.len() - 1].node == node);
                }
                if has_node(items.drop_last(), node) {
                    let j = choose|j: int|
                        0 <= j < items.drop_last().len() && (#[trigger] items.drop_last()[j]).node
                            == node;
                    assert(items[j].node == node);
                }
            }
            if has_node(before, node) {
                let i = choose|i: int| 0 <= i < before.len() && (#[trigger] before[i]).node == node;
                assert(after[i].node == node);
            }
            if has_node(items, node) {
                let j = choose|j: int| 0 <= j < items.len() && (#[trigger] items[j]).node == node;
                if j < items.len() - 1 {
                    assert(items.drop_last()[j].node == node);
                } else if !has_node(before, node) {
                    assert(after[before.len() as int].node == node);
                }
            }
        }
    }
}

/// What was asked for first stays first: after any number of the requests, the
/// collection is the beginning of what it is after all of them.
pub proof fn extended_keeps_order(
    s: Seq<Spanned<MonoItem>>,
    items: Seq<Spanned<MonoItem>>,
    n: int,
)
    requires
        0 <= n <= items.len(),
    ensures
        extended(s, items.take(n)).is_prefix_of(extended(s, items)),
        s.is_prefix_of(extended(s, items)),
    decreases items.len(),
{
    if n < items.len() {
        extended_keeps_order(s, items.drop_last(), n);
        assert(items.drop_last().take(n) =~= items.take(n));
    } else {
        assert(items.take(n) =~= items);
        if items.len() > 0 {
            extended_keeps_order(s, items.drop_last(), n - 1);
        }
    }
}

/// Only what is asked for comes in, and each request brings in one item at most.
pub proof fn extended_adds_only_requests(s: Seq<Spanned<MonoItem>>, items: Seq<Spanned<MonoItem>>)
    ensures
        s.len() <= extended(s, items).len() <= s.len() + items.len(),
        forall|i: int|
            s.len() <= i < extended(s, items).len() ==> items.contains(
                #[trigger] extended(s, items)[i],
            ),
    decreases items.len(),
{
    if items.len() > 0 {
        let before = extended(s, items.drop_last());
        let after = extended(s, items);
        extended_adds_only_requests(s, items.drop_last());
        assert forall|i: int| s.len() <= i < after.len() implies items.contains(
            #[trigger] after[i],
        ) by {
            if i < before.len() {
                assert(items.drop_last().contains(before[i]));
                let j = items.drop_last().index_of(before[i]);
                assert(items[j] == after[i]);
            } else {
                assert(items[items.len() - 1] == after[i]);
            }
        }
    }
}

/// `first` and `second` are two of `items`, in their order.
pub open spec fn are_in_order(
    first: Spanned<MonoItem>,
    second: Spanned<MonoItem>,
    items: Seq<Spanned<MonoItem>>,
) -> bool {
    exists|p: int, q: int|
        0 <= p < q < items.len() && first == #[trigger] items[p] && second == #[trigger] items[q]
}

/// What comes in comes in in the order of the requests.
pub proof fn extended_adds_in_order(s: Seq<Spanned<MonoItem>>, items: Seq<Spanned<MonoItem>>)
    ensures
        forall|k: int, l: int|
            s.len() <= k < l < extended(s, items).len() ==> are_in_order(
                #[trigger] extended(s, items)[k],
                #[trigger] extended(s, items)[l],
                items,
            ),
    decreases items.len(),
{
    if items.len() > 0 {
        let front = items.drop_last();
        let before = extended(s, front);
        let after = extended(s, items);
        extended_adds_in_order(s, front);
        extended_adds_only_requests(s, front);
        assert forall|k: int, l: int| s.len() <= k < l < after.len() implies are_in_order(
            #[trigger] after[k],
            #[trigger] after[l],
            items,
        ) by {
            assert(after[k] == before[k]);
            if l < before.len() {
                assert(are_in_order(before[k], before[l], front));
                let (p, q) = choose|p: int, q: int|
                    0 <= p < q < front.len() && before[k] == #[trigger] front[p] && before[l]
                        == #[trigger] front[q];
                assert(items[p] == front[p] && items[q] == front[q]);
            } else {
                assert(front.contains(before[k]));
                assert(items[front.index_of(before[k])] == after[k]);
                assert(items[items.len() - 1] == after[l]);
            }
        }
    }
}

/// Nothing is ever in a collection twice.
pub proof fn extended_stays_distinct(s: Seq<Spanned<MonoItem>>, items: Seq<Spanned<MonoItem>>)
    requires
        distinct_nodes(s),
    ensures
        distinct_nodes(extended(s, items)),
    decreases items.len(),
{
    if items.len() > 0 {
        extended_stays_distinct(s, items.drop_last());
        let before = extended(s, items.drop_last());
        let last = items.last();
        if !has_node(before, last.node) {
            assert forall|i: int, j: int| 0 <= i < j < before.push(last).len() implies (
            #[trigger] before.push(last)[i]).node != (#[trigger] before.push(last)[j]).node by {
                assert(before[i].node != last.node);
            }
        }
    }
}

/// The collection that is in order holds nothing twice.
pub proof fn collection_is_distinct(items: MonoItems)
    requires
        items.inv(),
    ensures
        distinct_nodes(items@),
{
}

/// The place that first asks for an item is the one that is kept.
pub proof fn extended_keeps_first_place(
    s: Seq<Spanned<MonoItem>>,
    items: Seq<Spanned<MonoItem>>,
    n: int,
)
    requires
        0 <= n < items.len(),
        !has_node(s, items[n].node),
        !has_node(items.take(n), items[n].node),
    ensures
        extended(s, items).contains(items[n]),
{
    let before = extended(s, items.take(n));
    lemma_extended_nodes(s, items.take(n));
    assert(!has_node(before, items[n].node));
    assert(items.take(n + 1).drop_last() =~= items.take(n));
    assert(items.take(n + 1).last() == items[n]);
    let after = extended(s, items.take(n + 1));
    assert(after == before.push(items[n]));
    extended_keeps_order(s, items, n + 1);
    let all = extended(s, items);
    assert(all[before.len() as int] == after[before.len() as int]);
}

/// To ask again for what is there changes nothing.
pub proof fn extended_by_known(s: Seq<Spanned<MonoItem>>, items: Seq<Spanned<MonoItem>>)
    requires
        forall|i: int| 0 <= i < items.len() ==> has_node(s, (#[trigger] items[i]).node),
    ensures
        extended(s, items) == s,
    decreases items.len(),
{
    if items.len() > 0 {
        assert forall|i: int| 0 <= i < items.drop_last().len() implies has_node(
            s,
            (#[trigger] items.drop_last()[i]).node,
        ) by {
            assert(items[i] == items.drop_last()[i]);
        }
        extended_by_known(s, items.drop_last());
        assert(items[items.len() - 1] == items.last());
    }
}

/// To ask for the same items a second time changes nothing.
pub proof fn extended_twice(s: Seq<Spanned<MonoItem>>, items: Seq<Spanned<MonoItem>>)
    ensures
        extended(extended(s, items), items) == extended(s, items),
{
    lemma_extended_nodes(s, items);
    assert forall|i: int| 0 <= i < items.len() implies has_node(
        extended(s, items),
        (#[trigger] items[i]).node,
    ) by {
        assert(has_node(items, items[i].node));
    }
    extended_by_known(extended(s, items), items);
}

/// What comes out of a collection makes the same collection when it is asked for
/// anew.
pub proof fn extended_from_empty(items: MonoItems)
    requires
        items.inv(),
    ensures
        extended(seq![], items@) == items@,
{
    lemma_extended_distinct(items@);
}

/// Items of which no two are the same all go in, as they are.
pub proof fn lemma_extended_distinct(items: Seq<Spanned<MonoItem>>)
    requires
        distinct_nodes(items),
    ensures
        extended(seq![], items) == items,
    decreases items.len(),
{
    if items.len() > 0 {
        let front = items.drop_last();
        assert forall|i: int, j: int| 0 <= i < j < front.len() implies (#[trigger] front[i]).node
            != (#[trigger] front[j]).node by {
            assert(items[i].node != items[j].node);
        }
        lemma_extended_distinct(front);
        assert(!has_node(front, items.last().node)) by {
            if has_node(front, items.last().node) {
                let i = choose|i: int|
                    0 <= i < front.len() && (#[trigger] front[i]).node == items.last().node;
                assert(items[i].node != items[items.len() - 1].node);
            }
        }
        assert(front.push(items.last()) =~= items);
    }
}

/// Each request counts for itself: what is asked for goes to the end of the
/// collection unless the collection has it already, from whatever place, and all
/// else stays. Requests are taken one after the other.
pub proof fn each_request_counts_for_itself(
    s: Seq<Spanned<MonoItem>>,
    a: Seq<Spanned<MonoItem>>,
    item: Spanned<MonoItem>,
    b: Seq<Spanned<MonoItem>>,
)
    ensures
        extended(s, seq![]) == s,
        extended(s, seq![item]) == if exists|i: int|
            0 <= i < s.len() && (#[trigger] s[i]).node == item.node {
            s
        } else {
            s.push(item)
        },
        inserted(s, item) == extended(s, seq![item]),
        extended(s, a + seq![item] + b) == extended(
            extended(extended(s, a), seq![item]),
            b,
        ),
        extended(s, a + b) == extended(extended(s, a), b),
{
    lemma_extended_one(s);
    lemma_extended_append(s, a + seq![item], b);
    lemma_extended_append(s, a, seq![item]);
    lemma_extended_append(s, a, b);
}

/// A collection has the items that its elements carry, in the order of the
/// elements.
pub proof fn nodes_of_elements(s: Seq<Spanned<MonoItem>>, node: MonoItem)
    ensures
        nodes(s).len() == s.len(),
        forall|i: int| 0 <= i < s.len() ==> #[trigger] nodes(s)[i] == s[i].node,
        has_node(s, node) <==> nodes(s).contains(node),
        distinct_nodes(s) <==> nodes(s).no_duplicates(),
{
    if has_node(s, node) {
        let i = choose|i: int| 0 <= i < s.len() && (#[trigger] s[i]).node == node;
        assert(nodes(s)[i] == node);
    }
    if nodes(s).contains(node) {
        let i = nodes(s).index_of(node);
        assert(s[i].node == node);
    }
    if distinct_nodes(s) {
        assert forall|i: int, j: int|
            0 <= i < nodes(s).len() && 0 <= j < nodes(s).len() && i != j implies nodes(s)[i]
            != nodes(s)[j] by {
            if i < j {
                assert(s[i].node != s[j].node);
            } else {
                assert(s[j].node != s[i].node);
            }
        }
    }
    if nodes(s).no_duplicates() {
        assert forall|i: int, j: int| 0 <= i < j < s.len() implies (#[trigger] s[i]).node != (
        #[trigger] s[j]).node by {
            assert(nodes(s)[i] != nodes(s)[j]);
        }
    }
}

} // verus!
