//! What holds of the roots of every crate.

use crate::collect::alloc_collectable;
use crate::collect::alloc_items;
use crate::collect::all_alloc_items;
use crate::collect::all_allocs_collectable;
use crate::collect::const_collectable;
use crate::collect::const_items;
use crate::collect::drop_use_collectable;
use crate::collect::drop_use_items;
use crate::collect::fn_item;
use crate::collect::instance_use_collectable;
use crate::collect::instance_use_items;
use crate::collect::intrinsic_items;
use crate::collect::lemma_drop_use_collectable;
use crate::def::AllocId;
use crate::def::DefId;
use crate::def::Instance;
use crate::def::ItemId;
use crate::def::Ty;
use crate::mono::are_in_order;
use crate::mono::extended;
use crate::mono::extended_adds_in_order;
use crate::mono::extended_adds_only_requests;
use crate::mono::extended_keeps_order;
use crate::mono::extended_stays_distinct;
use crate::mono::has_node;
use crate::mono::lemma_extended_nodes;
use crate::mono::lemma_extended_one;
use crate::mono::nodes;
use crate::mono::MonoItem;
use crate::roots::collectable;
use crate::roots::crate_items;
use crate::roots::default_impl_items;
use crate::roots::entry_items;
use crate::roots::fn_is_root;
use crate::roots::fn_items;
use crate::roots::free_items_items;
use crate::roots::has_main;
use crate::roots::impl_inherits;
use crate::roots::impl_item_collectable;
use crate::roots::impl_item_items;
use crate::roots::impl_items_items;
use crate::roots::inherited;
use crate::roots::item_collectable;
use crate::roots::item_items;
use crate::roots::lemma_crate_items_known;
use crate::roots::provided_method_items;
use crate::roots::provided_methods_items;
use crate::roots::roots;
use crate::roots::MonoItemCollectionStrategy;
use crate::roots::RootCollector;
use crate::span::dummy_sp;
use crate::span::Span;
use crate::span::Spanned;
use crate::tcx::AdtDef;
use crate::tcx::ConstValue;
use crate::tcx::EntryFnType;
use crate::tcx::FnDef;
use crate::tcx::GlobalAlloc;
use crate::tcx::ImplDef;
use crate::tcx::ImplItemKind;
use crate::tcx::ImplPolarity;
use crate::tcx::InstanceKind;
use crate::tcx::ItemKind;
use crate::tcx::ProvidedMethod;
use crate::tcx::Scalar;
use crate::tcx::TyCtxt;
use vstd::prelude::*;

verus! {

/// The free item at place `i` asks for `node`.
pub open spec fn free_item_asks(
    tcx: TyCtxt,
    strategy: MonoItemCollectionStrategy,
    i: int,
    node: MonoItem,
) -> bool {
    0 <= i < tcx.free_items@.len() && has_node(
        item_items(tcx, strategy, tcx.entry_fn, ItemId { index: i as usize }),
        node,
    )
}

/// The item of an impl at place `i` asks for `node`.
pub open spec fn impl_item_asks(
    tcx: TyCtxt,
    strategy: MonoItemCollectionStrategy,
    i: int,
    node: MonoItem,
) -> bool {
    0 <= i < tcx.impl_items@.len() && has_node(
        impl_item_items(strategy, tcx.entry_fn, tcx.impl_items@[i]),
        node,
    )
}

/// Something in the crate asks for `node`.
pub open spec fn crate_asks(
    tcx: TyCtxt,
    strategy: MonoItemCollectionStrategy,
    node: MonoItem,
) -> bool {
    ||| exists|i: int| free_item_asks(tcx, strategy, i, node)
    ||| exists|i: int| impl_item_asks(tcx, strategy, i, node)
    ||| has_node(entry_items(tcx, tcx.entry_fn), node)
}

/// What is in two lists together is what is in one of them.
proof fn lemma_has_node_append(
    a: Seq<Spanned<MonoItem>>,
    b: Seq<Spanned<MonoItem>>,
    node: MonoItem,
)
    ensures
        has_node(a + b, node) <==> has_node(a, node) || has_node(b, node),
{
    let both = a + b;
    if has_node(both, node) {
        let i = choose|i: int| 0 <= i < both.len() && (#[trigger] both[i]).node == node;
        if i < a.len() {
            assert(a[i].node == node);
        } else {
            assert(b[i - a.len()].node == node);
        }
    }
    if has_node(a, node) {
        let i = choose|i: int| 0 <= i < a.len() && (#[trigger] a[i]).node == node;
        assert(both[i].node == node);
    }
    if has_node(b, node) {
        let i = choose|i: int| 0 <= i < b.len() && (#[trigger] b[i]).node == node;
        assert(both[a.len() + i].node == node);
    }
}

proof fn lemma_free_items_nodes(
    tcx: TyCtxt,
    strategy: MonoItemCollectionStrategy,
    n: nat,
    node: MonoItem,
)
    requires
        n <= tcx.free_items@.len(),
    ensures
        has_node(free_items_items(tcx, strategy, n), node) <==> exists|i: int|
            i < n && free_item_asks(tcx, strategy, i, node),
    decreases n,
{
    if n > 0 {
        let m = (n - 1) as nat;
        lemma_free_items_nodes(tcx, strategy, m, node);
        lemma_has_node_append(
            free_items_items(tcx, strategy, m),
            item_items(tcx, strategy, tcx.entry_fn, ItemId { index: m as usize }),
            node,
        );
        if free_item_asks(tcx, strategy, m as int, node) {
            assert(has_node(free_items_items(tcx, strategy, n), node));
        }
        if exists|i: int| i < n && free_item_asks(tcx, strategy, i, node) {
            let i = choose|i: int| i < n && free_item_asks(tcx, strategy, i, node);
            if i < m {
                assert(i < m && free_item_asks(tcx, strategy, i, node));
            }
        }
        if has_node(free_items_items(tcx, strategy, n), node) {
            if has_node(free_items_items(tcx, strategy, m), node) {
                let i = choose|i: int| i < m && free_item_asks(tcx, strategy, i, node);
                assert(i < n && free_item_asks(tcx, strategy, i, node));
            } else {
                assert(m < n && free_item_asks(tcx, strategy, m as int, node));
            }
        }
    }
}

proof fn lemma_impl_items_nodes(
    tcx: TyCtxt,
    strategy: MonoItemCollectionStrategy,
    n: nat,
    node: MonoItem,
)
    requires
        n <= tcx.impl_items@.len(),
    ensures
        has_node(impl_items_items(tcx, strategy, n), node) <==> exists|i: int|
            i < n && impl_item_asks(tcx, strategy, i, node),
    decreases n,
{
    if n > 0 {
        let m = (n - 1) as nat;
        lemma_impl_items_nodes(tcx, strategy, m, node);
        lemma_has_node_append(
            impl_items_items(tcx, strategy, m),
            impl_item_items(strategy, tcx.entry_fn, tcx.impl_items@[m as int]),
            node,
        );
        if impl_item_asks(tcx, strategy, m as int, node) {
            assert(has_node(impl_items_items(tcx, strategy, n), node));
        }
        if exists|i: int| i < n && impl_item_asks(tcx, strategy, i, node) {
            let i = choose|i: int| i < n && impl_item_asks(tcx, strategy, i, node);
            if i < m {
                assert(i < m && impl_item_asks(tcx, strategy, i, node));
            }
        }
        if has_node(impl_items_items(tcx, strategy, n), node) {
            if has_node(impl_items_items(tcx, strategy, m), node) {
                let i = choose|i: int| i < m && impl_item_asks(tcx, strategy, i, node);
                assert(i < n && impl_item_asks(tcx, strategy, i, node));
            } else {
                assert(m < n && impl_item_asks(tcx, strategy, m as int, node));
            }
        }
    }
}

/// What a crate asks for is what something in it asks for.
proof fn lemma_crate_asks(tcx: TyCtxt, strategy: MonoItemCollectionStrategy, node: MonoItem)
    ensures
        has_node(crate_items(tcx, strategy), node) <==> crate_asks(tcx, strategy, node),
{
    let free = free_items_items(tcx, strategy, tcx.free_items@.len());
    let impls = impl_items_items(tcx, strategy, tcx.impl_items@.len());
    lemma_free_items_nodes(tcx, strategy, tcx.free_items@.len(), node);
    lemma_impl_items_nodes(tcx, strategy, tcx.impl_items@.len(), node);
    lemma_has_node_append(free, impls, node);
    lemma_has_node_append(free + impls, entry_items(tcx, tcx.entry_fn), node);
    if exists|i: int| free_item_asks(tcx, strategy, i, node) {
        let i = choose|i: int| free_item_asks(tcx, strategy, i, node);
        assert(i < tcx.free_items@.len() && free_item_asks(tcx, strategy, i, node));
    }
    if exists|i: int| impl_item_asks(tcx, strategy, i, node) {
        let i = choose|i: int| impl_item_asks(tcx, strategy, i, node);
        assert(i < tcx.impl_items@.len() && impl_item_asks(tcx, strategy, i, node));
    }
}

/// A list without what fails a test has what was in the list and passes it, and
/// nothing twice that was not there twice.
proof fn lemma_filter<A>(s: Seq<A>, pred: spec_fn(A) -> bool)
    ensures
        forall|x: A| #[trigger] s.filter(pred).contains(x) <==> s.contains(x) && pred(x),
        s.no_duplicates() ==> s.filter(pred).no_duplicates(),
    decreases s.len(),
{
    reveal(Seq::filter);
    if s.len() > 0 {
        let front = s.drop_last();
        let kept = front.filter(pred);
        let all = s.filter(pred);
        lemma_filter(front, pred);
        assert forall|x: A| #[trigger] all.contains(x) <==> s.contains(x) && pred(x) by {
            assert(kept.contains(x) <==> front.contains(x) && pred(x));
            if all.contains(x) {
                let i = choose|i: int| 0 <= i < all.len() && all[i] == x;
                if i < kept.len() {
                    assert(kept[i] == x);
                    let j = choose|j: int| 0 <= j < front.len() && front[j] == x;
                    assert(s[j] == x);
                } else {
                    assert(s[s.len() - 1] == x);
                }
            }
            if s.contains(x) && pred(x) {
                let j = choose|j: int| 0 <= j < s.len() && s[j] == x;
                if j < front.len() {
                    assert(front[j] == x);
                    let i = choose|i: int| 0 <= i < kept.len() && kept[i] == x;
                    assert(all[i] == x);
                } else {
                    assert(all[all.len() - 1] == x);
                }
            }
        }
        if s.no_duplicates() {
            assert(front.no_duplicates());
            if pred(s.last()) {
                assert(!front.contains(s.last())) by {
                    if front.contains(s.last()) {
                        let j = choose|j: int| 0 <= j < front.len() && front[j] == s.last();
                        assert(s[j] == s[s.len() - 1]);
                    }
                }
                assert(!kept.contains(s.last()));
                assert forall|i: int, j: int|
                    0 <= i < all.len() && 0 <= j < all.len() && i != j implies all[i]
                    != all[j] by {
                    if i < kept.len() {
                        assert(kept.contains(kept[i]));
                    }
                    if j < kept.len() {
                        assert(kept.contains(kept[j]));
                    }
                }
            }
        }
    }
}

/// The roots are what something in the crate asks for and can be used.
pub proof fn root_is_asked_for(
    tcx: TyCtxt,
    strategy: MonoItemCollectionStrategy,
    node: MonoItem,
)
    ensures
        roots(tcx, strategy).contains(node) <==> crate_asks(tcx, strategy, node)
            && tcx.instantiable(node),
{
    let items = crate_items(tcx, strategy);
    let all = extended(seq![], items);
    lemma_crate_asks(tcx, strategy, node);
    lemma_extended_nodes(seq![], items);
    assert(has_node(all, node) <==> has_node(seq![], node) || has_node(items, node));
    assert(nodes(all).contains(node) <==> has_node(all, node)) by {
        if has_node(all, node) {
            let i = choose|i: int| 0 <= i < all.len() && (#[trigger] all[i]).node == node;
            assert(nodes(all)[i] == node);
        }
        if nodes(all).contains(node) {
            let i = choose|i: int| 0 <= i < nodes(all).len() && nodes(all)[i] == node;
            assert(all[i].node == node);
        }
    }
    lemma_filter(nodes(all), |item: MonoItem| tcx.instantiable(item));
}

/// No root is there twice.
pub proof fn roots_are_distinct(tcx: TyCtxt, strategy: MonoItemCollectionStrategy)
    ensures
        roots(tcx, strategy).no_duplicates(),
{
    let all = extended(seq![], crate_items(tcx, strategy));
    extended_stays_distinct(seq![], crate_items(tcx, strategy));
    assert forall|i: int, j: int|
        0 <= i < nodes(all).len() && 0 <= j < nodes(all).len() && i != j implies nodes(all)[i]
        != nodes(all)[j] by {
        if i < j {
            assert(all[i].node != all[j].node);
        } else {
            assert(all[j].node != all[i].node);
        }
    }
    lemma_filter(nodes(all), |item: MonoItem| tcx.instantiable(item));
}

/// Every root is something of the crate's lists.
pub proof fn roots_are_known(tcx: TyCtxt, strategy: MonoItemCollectionStrategy, node: MonoItem)
    requires
        tcx.wf(),
        collectable(tcx, strategy),
        roots(tcx, strategy).contains(node),
    ensures
        tcx.has_mono_item(node),
        tcx.instantiable(node),
{
    root_is_asked_for(tcx, strategy, node);
    lemma_crate_asks(tcx, strategy, node);
    lemma_crate_items_known(tcx, strategy);
    let items = crate_items(tcx, strategy);
    let i = choose|i: int| 0 <= i < items.len() && (#[trigger] items[i]).node == node;
    assert(tcx.has_mono_item(items[i].node));
}

/// Two roots never stand for the same thing: two functions differ in what they
/// are or in their arguments, and two statics in their definition.
pub proof fn roots_stand_for_different_things(
    tcx: TyCtxt,
    strategy: MonoItemCollectionStrategy,
    i: int,
    j: int,
)
    requires
        tcx.wf(),
        collectable(tcx, strategy),
        0 <= i < j < roots(tcx, strategy).len(),
    ensures
        match (roots(tcx, strategy)[i], roots(tcx, strategy)[j]) {
            (MonoItem::Fn(a), MonoItem::Fn(b)) => {
                tcx.instances@[a.index as int].def != tcx.instances@[b.index as int].def
                    || tcx.instances@[a.index as int].args != tcx.instances@[b.index as int].args
            },
            (MonoItem::Static(a), MonoItem::Static(b)) => {
                tcx.statics@[a.index as int].def_id != tcx.statics@[b.index as int].def_id
            },
            (a, b) => a != b,
        },
{
    let all = roots(tcx, strategy);
    assert(all.contains(all[i]) && all.contains(all[j]));
    roots_are_distinct(tcx, strategy);
    roots_are_known(tcx, strategy, all[i]);
    roots_are_known(tcx, strategy, all[j]);
    match (all[i], all[j]) {
        (MonoItem::Fn(a), MonoItem::Fn(b)) => {
            assert(a.index != b.index);
            let low = if a.index < b.index {
                a.index as int
            } else {
                b.index as int
            };
            let high = if a.index < b.index {
                b.index as int
            } else {
                a.index as int
            };
            assert(!(tcx.instances@[low].def == tcx.instances@[high].def
                && tcx.instances@[low].args == tcx.instances@[high].args));
        },
        (MonoItem::Static(a), MonoItem::Static(b)) => {
            assert(a.index != b.index);
            if a.index < b.index {
                assert(tcx.statics@[a.index as int].def_id != tcx.statics@[b.index as int].def_id);
            } else {
                assert(tcx.statics@[b.index as int].def_id != tcx.statics@[a.index as int].def_id);
            }
        },
        _ => {},
    }
}

/// What is a root when only what is reachable counts is a root, too, when
/// everything counts.
pub proof fn lazy_roots_are_eager_roots(tcx: TyCtxt, node: MonoItem)
    requires
        roots(tcx, MonoItemCollectionStrategy::Lazy).contains(node),
    ensures
        roots(tcx, MonoItemCollectionStrategy::Eager).contains(node),
{
    let lazy = MonoItemCollectionStrategy::Lazy;
    let eager = MonoItemCollectionStrategy::Eager;
    root_is_asked_for(tcx, lazy, node);
    root_is_asked_for(tcx, eager, node);
    if exists|i: int| free_item_asks(tcx, lazy, i, node) {
        let i = choose|i: int| free_item_asks(tcx, lazy, i, node);
        assert(free_item_asks(tcx, eager, i, node));
    } else if exists|i: int| impl_item_asks(tcx, lazy, i, node) {
        let i = choose|i: int| impl_item_asks(tcx, lazy, i, node);
        assert(impl_item_asks(tcx, eager, i, node));
    }
}

/// What is a root only because everything counts is a function. The statics and
/// the blocks of assembly among the roots are the same either way.
pub proof fn eager_adds_only_functions(tcx: TyCtxt, node: MonoItem)
    ensures
        roots(tcx, MonoItemCollectionStrategy::Eager).contains(node) && !roots(
            tcx,
            MonoItemCollectionStrategy::Lazy,
        ).contains(node) ==> node is Fn,
        !(node is Fn) ==> (roots(tcx, MonoItemCollectionStrategy::Eager).contains(node) <==> roots(
            tcx,
            MonoItemCollectionStrategy::Lazy,
        ).contains(node)),
{
    let lazy = MonoItemCollectionStrategy::Lazy;
    let eager = MonoItemCollectionStrategy::Eager;
    root_is_asked_for(tcx, lazy, node);
    root_is_asked_for(tcx, eager, node);
    if roots(tcx, lazy).contains(node) {
        lazy_roots_are_eager_roots(tcx, node);
    }
    if crate_asks(tcx, eager, node) && !(node is Fn) {
        if exists|i: int| free_item_asks(tcx, eager, i, node) {
            let i = choose|i: int| free_item_asks(tcx, eager, i, node);
            assert(i < tcx.free_items.len());
            let items = item_items(tcx, eager, tcx.entry_fn, ItemId { index: i as usize });
            let j = choose|j: int| 0 <= j < items.len() && (#[trigger] items[j]).node == node;
            match tcx.free_items@[i] {
                ItemKind::Impl(def) => {
                    impl_asks_for_inherited_methods(tcx, def, node);
                    assert(false);
                },
                ItemKind::Enum(_) | ItemKind::Struct(_) | ItemKind::Union(_) | ItemKind::Fn(_) => {
                    assert(items[j].node is Fn);
                    assert(false);
                },
                _ => {},
            }
            assert(free_item_asks(tcx, lazy, i, node));
        }
    }
}

/// Where the roots of everything can be collected, so can those of what is
/// reachable.
pub proof fn eager_collectable_is_lazy_collectable(tcx: TyCtxt)
    requires
        collectable(tcx, MonoItemCollectionStrategy::Eager),
    ensures
        collectable(tcx, MonoItemCollectionStrategy::Lazy),
{
    let lazy = MonoItemCollectionStrategy::Lazy;
    let eager = MonoItemCollectionStrategy::Eager;
    assert forall|i: int| 0 <= i < tcx.free_items@.len() implies item_collectable(
        tcx,
        lazy,
        tcx.entry_fn,
        #[trigger] tcx.free_items@[i],
    ) by {
        assert(item_collectable(tcx, eager, tcx.entry_fn, tcx.free_items@[i]));
    }
    assert forall|i: int| 0 <= i < tcx.impl_items@.len() implies impl_item_collectable(
        lazy,
        tcx.entry_fn,
        #[trigger] tcx.impl_items@[i],
    ) by {
        assert(impl_item_collectable(eager, tcx.entry_fn, tcx.impl_items@[i]));
    }
}

/// All roots are monomorphic: a function that has type or const parameters is
/// never asked for, free or in an impl.
pub proof fn generic_function_is_no_root(
    tcx: TyCtxt,
    strategy: MonoItemCollectionStrategy,
    id: ItemId,
    def: FnDef,
)
    requires
        def.requires_monomorphization,
    ensures
        fn_items(strategy, tcx.entry_fn, def) == Seq::<Spanned<MonoItem>>::empty(),
        impl_item_items(strategy, tcx.entry_fn, ImplItemKind::AssocFn(def)) == Seq::<
            Spanned<MonoItem>,
        >::empty(),
        tcx.free_items@[id.index as int] == ItemKind::Fn(def) ==> item_items(
            tcx,
            strategy,
            tcx.entry_fn,
            id,
        ) == Seq::<Spanned<MonoItem>>::empty(),
{
}

/// A program that is entered through `main` has the function that calls `main`
/// among its roots.
pub proof fn start_function_is_root(
    tcx: TyCtxt,
    strategy: MonoItemCollectionStrategy,
    start: Instance,
)
    requires
        has_main(tcx.entry_fn),
        tcx.start_fn == Some(start),
        tcx.instantiable(MonoItem::Fn(start)),
    ensures
        roots(tcx, strategy).contains(MonoItem::Fn(start)),
{
    root_is_asked_for(tcx, strategy, MonoItem::Fn(start));
    assert(entry_items(tcx, tcx.entry_fn)[0].node == MonoItem::Fn(start));
}

/// The function that a program is entered through is one of its roots.
pub proof fn entry_function_is_root(
    tcx: TyCtxt,
    strategy: MonoItemCollectionStrategy,
    id: ItemId,
    def: FnDef,
    instance: Instance,
)
    requires
        id.index < tcx.free_items@.len(),
        tcx.free_items@[id.index as int] == ItemKind::Fn(def),
        tcx.entry_fn is Some,
        tcx.entry_fn->0.def_id == def.def_id.to_def_id(),
        !def.requires_monomorphization,
        def.instance == Some(instance),
        tcx.instantiable(MonoItem::Fn(instance)),
    ensures
        roots(tcx, strategy).contains(MonoItem::Fn(instance)),
{
    let node = MonoItem::Fn(instance);
    root_is_asked_for(tcx, strategy, node);
    let items = item_items(tcx, strategy, tcx.entry_fn, ItemId { index: id.index as int as usize });
    assert(items[0].node == node);
    assert(free_item_asks(tcx, strategy, id.index as int, node));
}

/// Statics and blocks of assembly are roots whatever else counts.
pub proof fn statics_and_assembly_are_roots(
    tcx: TyCtxt,
    strategy: MonoItemCollectionStrategy,
    id: ItemId,
)
    requires
        id.index < tcx.free_items@.len(),
    ensures
        tcx.free_items@[id.index as int] is GlobalAsm && tcx.instantiable(MonoItem::GlobalAsm(id))
            ==> roots(tcx, strategy).contains(MonoItem::GlobalAsm(id)),
        tcx.free_items@[id.index as int] is Static && tcx.instantiable(
            MonoItem::Static(tcx.free_items@[id.index as int]->Static_0),
        ) ==> roots(tcx, strategy).contains(
            MonoItem::Static(tcx.free_items@[id.index as int]->Static_0),
        ),
{
    let items = item_items(tcx, strategy, tcx.entry_fn, ItemId { index: id.index as int as usize });
    match tcx.free_items@[id.index as int] {
        ItemKind::GlobalAsm(_) => {
            let node = MonoItem::GlobalAsm(id);
            root_is_asked_for(tcx, strategy, node);
            assert(items[0].node == node);
            assert(free_item_asks(tcx, strategy, id.index as int, node));
        },
        ItemKind::Static(static_id) => {
            let node = MonoItem::Static(static_id);
            root_is_asked_for(tcx, strategy, node);
            assert(items[0].node == node);
            assert(free_item_asks(tcx, strategy, id.index as int, node));
        },
        _ => {},
    }
}

/// The memory or vtable `a` points to `b`.
pub open spec fn points_to(tcx: TyCtxt, a: AllocId, b: AllocId) -> bool {
    match tcx.allocs@[a.index as int] {
        GlobalAlloc::Memory(ptrs) => ptrs@.contains(b),
        GlobalAlloc::VTable(memory) => memory == b,
        _ => false,
    }
}

/// Each allocation of `path` points to the next.
pub open spec fn is_path(tcx: TyCtxt, path: Seq<AllocId>) -> bool {
    forall|i: int| 0 <= i < path.len() - 1 ==> points_to(tcx, #[trigger] path[i], path[i + 1])
}

/// There is a way from `a` to `b`, which may be the same.
pub open spec fn reaches(tcx: TyCtxt, a: AllocId, b: AllocId) -> bool {
    exists|path: Seq<AllocId>|
        path.len() > 0 && path[0] == a && path.last() == b && #[trigger] is_path(tcx, path)
}

/// The allocation `alloc_id` is the function or static `node` itself.
pub open spec fn stands_for(tcx: TyCtxt, alloc_id: AllocId, node: MonoItem) -> bool {
    match tcx.allocs@[alloc_id.index as int] {
        GlobalAlloc::Static(id) => node == MonoItem::Static(id),
        GlobalAlloc::Function(instance) => node == MonoItem::Fn(instance),
        _ => false,
    }
}

/// The allocation `alloc_id` is a thread-local static.
pub open spec fn is_thread_local(tcx: TyCtxt, alloc_id: AllocId) -> bool {
    tcx.allocs@[alloc_id.index as int] is Static && tcx.statics@[(
    tcx.allocs@[alloc_id.index as int]->Static_0).index as int].thread_local
}

/// What several allocations ask for is what one of them asks for.
proof fn lemma_all_alloc_nodes(tcx: TyCtxt, ids: Seq<AllocId>, bound: usize, node: MonoItem)
    requires
        tcx.wf(),
        tcx.has_allocs_below(ids, bound as int),
    ensures
        has_node(all_alloc_items(tcx, ids, bound), node) <==> exists|i: int|
            0 <= i < ids.len() && has_node(alloc_items(tcx, #[trigger] ids[i]), node),
    decreases ids.len(),
{
    if ids.len() > 0 {
        let rest = ids.drop_first();
        assert forall|i: int| 0 <= i < rest.len() implies tcx.has_alloc_below(
            #[trigger] rest[i],
            bound as int,
        ) by {
            assert(tcx.has_alloc_below(ids[i + 1], bound as int));
        }
        lemma_all_alloc_nodes(tcx, rest, bound, node);
        lemma_has_node_append(alloc_items(tcx, ids[0]), all_alloc_items(tcx, rest, bound), node);
        if exists|i: int|
            0 <= i < ids.len() && has_node(alloc_items(tcx, #[trigger] ids[i]), node) {
            let i = choose|i: int|
                0 <= i < ids.len() && has_node(alloc_items(tcx, #[trigger] ids[i]), node);
            if i > 0 {
                assert(rest[i - 1] == ids[i]);
            }
        }
        if has_node(all_alloc_items(tcx, rest, bound), node) {
            let i = choose|i: int|
                0 <= i < rest.len() && has_node(alloc_items(tcx, #[trigger] rest[i]), node);
            assert(ids[i + 1] == rest[i]);
        }
    }
}

/// One more step in front of a way is a way.
proof fn lemma_reaches_step(tcx: TyCtxt, a: AllocId, b: AllocId, c: AllocId)
    requires
        points_to(tcx, a, b),
        reaches(tcx, b, c),
    ensures
        reaches(tcx, a, c),
{
    let path = choose|path: Seq<AllocId>|
        path.len() > 0 && path[0] == b && path.last() == c && #[trigger] is_path(tcx, path);
    let longer = seq![a] + path;
    assert forall|i: int| 0 <= i < longer.len() - 1 implies points_to(
        tcx,
        #[trigger] longer[i],
        longer[i + 1],
    ) by {
        if i > 0 {
            assert(longer[i] == path[i - 1]);
            assert(points_to(tcx, path[i - 1], path[i - 1 + 1]));
        }
    }
    assert(is_path(tcx, longer));
    assert(longer.last() == c);
}

/// An allocation reaches itself.
proof fn lemma_reaches_self(tcx: TyCtxt, a: AllocId)
    ensures
        reaches(tcx, a, a),
{
    assert(is_path(tcx, seq![a]));
    assert(seq![a].last() == a);
}

/// What an allocation points to is known, and comes before it.
proof fn lemma_points_below(tcx: TyCtxt, a: AllocId, b: AllocId)
    requires
        tcx.wf(),
        a.index < tcx.allocs@.len(),
        points_to(tcx, a, b),
    ensures
        b.index < a.index,
{
    assert(tcx.alloc_wf(a.index as int));
    if let GlobalAlloc::Memory(ptrs) = tcx.allocs@[a.index as int] {
        let i = choose|i: int| 0 <= i < ptrs@.len() && ptrs@[i] == b;
        assert(tcx.has_alloc_below(ptrs@[i], a.index as int));
    }
}

/// What an allocation points to is asked for with it.
proof fn lemma_alloc_asks_with_target(tcx: TyCtxt, a: AllocId, b: AllocId, node: MonoItem)
    requires
        tcx.wf(),
        a.index < tcx.allocs@.len(),
        points_to(tcx, a, b),
        has_node(alloc_items(tcx, b), node),
    ensures
        has_node(alloc_items(tcx, a), node),
{
    assert(tcx.alloc_wf(a.index as int));
    if let GlobalAlloc::Memory(ptrs) = tcx.allocs@[a.index as int] {
        lemma_all_alloc_nodes(tcx, ptrs@, a.index, node);
        let i = choose|i: int| 0 <= i < ptrs@.len() && ptrs@[i] == b;
        assert(has_node(alloc_items(tcx, ptrs@[i]), node));
    }
}

proof fn lemma_path_asks(tcx: TyCtxt, path: Seq<AllocId>, node: MonoItem)
    requires
        tcx.wf(),
        path.len() > 0,
        path[0].index < tcx.allocs@.len(),
        is_path(tcx, path),
        stands_for(tcx, path.last(), node),
        generated_here(tcx, node),
    ensures
        has_node(alloc_items(tcx, path[0]), node),
    decreases path.len(),
{
    if path.len() == 1 {
        assert(alloc_items(tcx, path[0])[0].node == node);
    } else {
        let rest = path.drop_first();
        assert(points_to(tcx, path[0], path[0int + 1]));
        assert forall|i: int| 0 <= i < rest.len() - 1 implies points_to(
            tcx,
            #[trigger] rest[i],
            rest[i + 1],
        ) by {
            assert(points_to(tcx, path[i + 1], path[i + 1 + 1]));
        }
        lemma_points_below(tcx, path[0], path[1]);
        lemma_path_asks(tcx, rest, node);
        lemma_alloc_asks_with_target(tcx, path[0], path[1], node);
    }
}

proof fn lemma_asked_is_reached(tcx: TyCtxt, a: AllocId, node: MonoItem) -> (b: AllocId)
    requires
        tcx.wf(),
        a.index < tcx.allocs@.len(),
        has_node(alloc_items(tcx, a), node),
    ensures
        reaches(tcx, a, b),
        stands_for(tcx, b, node),
        generated_here(tcx, node),
    decreases a.index,
{
    assert(tcx.alloc_wf(a.index as int));
    lemma_reaches_self(tcx, a);
    match tcx.allocs@[a.index as int] {
        GlobalAlloc::Memory(ptrs) => {
            lemma_all_alloc_nodes(tcx, ptrs@, a.index, node);
            let i = choose|i: int|
                0 <= i < ptrs@.len() && has_node(alloc_items(tcx, #[trigger] ptrs@[i]), node);
            assert(tcx.has_alloc_below(ptrs@[i], a.index as int));
            let b = lemma_asked_is_reached(tcx, ptrs@[i], node);
            lemma_reaches_step(tcx, a, ptrs@[i], b);
            b
        },
        GlobalAlloc::VTable(memory) => {
            let b = lemma_asked_is_reached(tcx, memory, node);
            lemma_reaches_step(tcx, a, memory, b);
            b
        },
        _ => a,
    }
}

/// Code for the function or static `node` is generated in this crate.
pub open spec fn generated_here(tcx: TyCtxt, node: MonoItem) -> bool {
    match node {
        MonoItem::Fn(instance) => tcx.instances@[instance.index as int].codegen_locally,
        MonoItem::Static(id) => {
            let instance = tcx.statics@[id.index as int].instance;
            tcx.instances@[instance.index as int].codegen_locally
        },
        MonoItem::GlobalAsm(_) => true,
    }
}

/// An allocation asks for the functions and statics that can be reached from it
/// and whose code is generated in this crate: for all of them, and for nothing
/// else.
pub proof fn alloc_asks_for_what_it_reaches(tcx: TyCtxt, a: AllocId, node: MonoItem)
    requires
        tcx.wf(),
        a.index < tcx.allocs@.len(),
    ensures
        has_node(alloc_items(tcx, a), node) <==> generated_here(tcx, node) && exists|b: AllocId|
            #[trigger] reaches(tcx, a, b) && stands_for(tcx, b, node),
{
    if has_node(alloc_items(tcx, a), node) {
        let b = lemma_asked_is_reached(tcx, a, node);
        assert(reaches(tcx, a, b) && stands_for(tcx, b, node));
    }
    if generated_here(tcx, node) && exists|b: AllocId| #[trigger]
        reaches(tcx, a, b) && stands_for(tcx, b, node) {
        let b = choose|b: AllocId| #[trigger] reaches(tcx, a, b) && stands_for(tcx, b, node);
        let path = choose|path: Seq<AllocId>|
            path.len() > 0 && path[0] == a && path.last() == b && #[trigger] is_path(tcx, path);
        lemma_path_asks(tcx, path, node);
    }
}

proof fn lemma_path_collectable(tcx: TyCtxt, path: Seq<AllocId>)
    requires
        tcx.wf(),
        path.len() > 0,
        path[0].index < tcx.allocs@.len(),
        is_path(tcx, path),
        alloc_collectable(tcx, path[0]),
    ensures
        !is_thread_local(tcx, path.last()),
    decreases path.len(),
{
    assert(tcx.alloc_wf(path[0].index as int));
    if path.len() > 1 {
        let rest = path.drop_first();
        assert(points_to(tcx, path[0], path[0int + 1]));
        assert forall|i: int| 0 <= i < rest.len() - 1 implies points_to(
            tcx,
            #[trigger] rest[i],
            rest[i + 1],
        ) by {
            assert(points_to(tcx, path[i + 1], path[i + 1 + 1]));
        }
        lemma_points_below(tcx, path[0], path[1]);
        if let GlobalAlloc::Memory(ptrs) = tcx.allocs@[path[0].index as int] {
            assert(all_allocs_collectable(tcx, ptrs@, path[0].index));
            let i = choose|i: int| 0 <= i < ptrs@.len() && ptrs@[i] == path[1];
            assert(alloc_collectable(tcx, ptrs@[i]));
        }
        lemma_path_collectable(tcx, rest);
    }
}

proof fn lemma_uncollectable_reaches(tcx: TyCtxt, a: AllocId) -> (b: AllocId)
    requires
        tcx.wf(),
        a.index < tcx.allocs@.len(),
        !alloc_collectable(tcx, a),
    ensures
        reaches(tcx, a, b),
        is_thread_local(tcx, b),
    decreases a.index,
{
    assert(tcx.alloc_wf(a.index as int));
    lemma_reaches_self(tcx, a);
    match tcx.allocs@[a.index as int] {
        GlobalAlloc::Memory(ptrs) => {
            assert(!all_allocs_collectable(tcx, ptrs@, a.index));
            let i = choose|i: int|
                0 <= i < ptrs@.len() && !alloc_collectable(tcx, #[trigger] ptrs@[i]);
            assert(tcx.has_alloc_below(ptrs@[i], a.index as int));
            let b = lemma_uncollectable_reaches(tcx, ptrs@[i]);
            lemma_reaches_step(tcx, a, ptrs@[i], b);
            b
        },
        GlobalAlloc::VTable(memory) => {
            let b = lemma_uncollectable_reaches(tcx, memory);
            lemma_reaches_step(tcx, a, memory, b);
            b
        },
        _ => a,
    }
}

/// An allocation can be collected unless a thread-local static can be reached
/// from it.
pub proof fn alloc_collectable_unless_thread_local(tcx: TyCtxt, a: AllocId)
    requires
        tcx.wf(),
        a.index < tcx.allocs@.len(),
    ensures
        alloc_collectable(tcx, a) <==> forall|b: AllocId| #[trigger]
            reaches(tcx, a, b) ==> !is_thread_local(tcx, b),
{
    if alloc_collectable(tcx, a) {
        assert forall|b: AllocId| #[trigger] reaches(tcx, a, b) implies !is_thread_local(
            tcx,
            b,
        ) by {
            let path = choose|path: Seq<AllocId>|
                path.len() > 0 && path[0] == a && path.last() == b && #[trigger] is_path(
                    tcx,
                    path,
                );
            lemma_path_collectable(tcx, path);
        }
    } else {
        let b = lemma_uncollectable_reaches(tcx, a);
        assert(reaches(tcx, a, b) && is_thread_local(tcx, b));
    }
}

/// A use of an instance whose code is not generated in this crate asks for
/// nothing, and so does a direct call of drop glue that does nothing.
pub proof fn use_without_code_asks_for_nothing(
    tcx: TyCtxt,
    instance: Instance,
    is_direct_call: bool,
    source: Span,
)
    requires
        tcx.wf(),
        tcx.has_instance(instance),
    ensures
        !tcx.codegen_locally(instance) ==> instance_use_items(
            tcx,
            instance,
            is_direct_call,
            source,
        ) == Seq::<Spanned<MonoItem>>::empty(),
        is_direct_call && (tcx.instances@[instance.index as int].def matches InstanceKind::DropGlue(
            _,
            None,
        )) ==> instance_use_items(tcx, instance, is_direct_call, source) == Seq::<
            Spanned<MonoItem>,
        >::empty(),
{
    assert(tcx.instance_wf(tcx.instances@[instance.index as int]));
    assert(Seq::<Spanned<MonoItem>>::empty() + Seq::<Spanned<MonoItem>>::empty() =~= Seq::<
        Spanned<MonoItem>,
    >::empty());
}

/// Drop glue of a type whose values need no drop.
pub open spec fn is_empty_glue(def: InstanceKind) -> bool {
    match def {
        InstanceKind::DropGlue(_, None) | InstanceKind::AsyncDropGlueCtorShim(_, None) => true,
        _ => false,
    }
}

/// A direct use asks for no more than an indirect one. They differ only where
/// the instance is drop glue that does nothing, whose code is generated in this
/// crate: the indirect use then asks for it, too, and last. So a collection `s`
/// is after the direct use the beginning of what it is after the indirect one.
pub proof fn direct_use_asks_for_no_more(
    tcx: TyCtxt,
    instance: Instance,
    source: Span,
    s: Seq<Spanned<MonoItem>>,
)
    ensures
        ({
            let direct = instance_use_items(tcx, instance, true, source);
            let indirect = instance_use_items(tcx, instance, false, source);
            &&& indirect == if tcx.codegen_locally(instance) && is_empty_glue(
                tcx.instances@[instance.index as int].def,
            ) {
                direct.push(fn_item(instance, source))
            } else {
                direct
            }
            &&& direct.is_prefix_of(indirect)
            &&& extended(s, direct).is_prefix_of(extended(s, indirect))
        }),
{
    let direct = instance_use_items(tcx, instance, true, source);
    let indirect = instance_use_items(tcx, instance, false, source);
    if tcx.codegen_locally(instance) && is_empty_glue(tcx.instances@[instance.index as int].def) {
        assert(indirect =~= direct.push(fn_item(instance, source)));
    }
    assert(indirect.take(direct.len() as int) =~= direct);
    extended_keeps_order(s, indirect, direct.len() as int);
}

/// All requests of `items` carry the place `source`.
pub open spec fn all_asked_at(items: Seq<Spanned<MonoItem>>, source: Span) -> bool {
    forall|i: int| 0 <= i < items.len() ==> (#[trigger] items[i]).span == source
}

/// All requests of `items` are for functions and statics.
pub open spec fn all_functions_or_statics(items: Seq<Spanned<MonoItem>>) -> bool {
    forall|i: int|
        0 <= i < items.len() ==> (#[trigger] items[i]).node is Fn || items[i].node is Static
}

/// Whatever an allocation asks for is a function or a static, and is asked for at
/// no place of the source.
pub proof fn alloc_asks_at_no_place(tcx: TyCtxt, alloc_id: AllocId)
    requires
        tcx.wf(),
        alloc_id.index < tcx.allocs@.len(),
    ensures
        all_functions_or_statics(alloc_items(tcx, alloc_id)),
        all_asked_at(alloc_items(tcx, alloc_id), dummy_sp()),
    decreases alloc_id.index, 1nat, 0nat,
{
    assert(tcx.alloc_wf(alloc_id.index as int));
    match tcx.allocs@[alloc_id.index as int] {
        GlobalAlloc::Memory(ptrs) => {
            lemma_allocs_ask_at_no_place(tcx, ptrs@, alloc_id.index);
        },
        GlobalAlloc::VTable(memory) => {
            alloc_asks_at_no_place(tcx, memory);
        },
        _ => {},
    }
}

/// The same of several allocations.
proof fn lemma_allocs_ask_at_no_place(tcx: TyCtxt, ids: Seq<AllocId>, bound: usize)
    requires
        tcx.wf(),
        tcx.has_allocs_below(ids, bound as int),
    ensures
        all_functions_or_statics(all_alloc_items(tcx, ids, bound)),
        all_asked_at(all_alloc_items(tcx, ids, bound), dummy_sp()),
    decreases bound, 0nat, ids.len(),
{
    if ids.len() > 0 {
        assert(tcx.has_alloc_below(ids[0], bound as int));
        alloc_asks_at_no_place(tcx, ids[0]);
        assert forall|i: int| 0 <= i < ids.drop_first().len() implies tcx.has_alloc_below(
            #[trigger] ids.drop_first()[i],
            bound as int,
        ) by {
            assert(tcx.has_alloc_below(ids[i + 1], bound as int));
        }
        lemma_allocs_ask_at_no_place(tcx, ids.drop_first(), bound);
    }
}

/// The same of what a constant asks for.
pub proof fn const_asks_at_no_place(tcx: TyCtxt, value: ConstValue)
    requires
        tcx.wf(),
        tcx.const_wf(value),
    ensures
        all_functions_or_statics(const_items(tcx, value)),
        all_asked_at(const_items(tcx, value), dummy_sp()),
{
    match value {
        ConstValue::Scalar(Scalar::Ptr(alloc_id)) => alloc_asks_at_no_place(tcx, alloc_id),
        ConstValue::Indirect { alloc_id } => alloc_asks_at_no_place(tcx, alloc_id),
        ConstValue::Slice { data } => {
            lemma_allocs_ask_at_no_place(tcx, data@, tcx.allocs.len());
        },
        _ => {},
    }
}

/// Whatever a free item asks for is asked for at no place of the source.
pub proof fn free_item_asks_at_no_place(
    tcx: TyCtxt,
    strategy: MonoItemCollectionStrategy,
    id: ItemId,
)
    requires
        tcx.wf(),
        id.index < tcx.free_items@.len(),
    ensures
        all_asked_at(item_items(tcx, strategy, tcx.entry_fn, id), dummy_sp()),
{
    assert(tcx.item_wf(tcx.free_items@[id.index as int]));
    match tcx.free_items@[id.index as int] {
        ItemKind::Const(Some(value)) => const_asks_at_no_place(tcx, value),
        ItemKind::Impl(def) => {
            lemma_provided_methods_kept(tcx, def, def.provided_methods@);
        },
        _ => {},
    }
}

/// Whatever a crate asks for is asked for at no place of the source, and stands
/// without a place in the collection that the roots are taken from.
pub proof fn crate_asks_at_no_place(tcx: TyCtxt, strategy: MonoItemCollectionStrategy)
    requires
        tcx.wf(),
    ensures
        all_asked_at(crate_items(tcx, strategy), dummy_sp()),
        all_asked_at(extended(seq![], crate_items(tcx, strategy)), dummy_sp()),
{
    let items = crate_items(tcx, strategy);
    let all = extended(seq![], items);
    lemma_free_items_ask_at_no_place(tcx, strategy, tcx.free_items@.len());
    lemma_impl_items_ask_at_no_place(tcx, strategy, tcx.impl_items@.len());
    extended_adds_only_requests(seq![], items);
    assert forall|i: int| 0 <= i < all.len() implies (#[trigger] all[i]).span == dummy_sp() by {
        assert(items.contains(all[i]));
        assert(items[items.index_of(all[i])] == all[i]);
    }
}

proof fn lemma_free_items_ask_at_no_place(
    tcx: TyCtxt,
    strategy: MonoItemCollectionStrategy,
    n: nat,
)
    requires
        tcx.wf(),
        n <= tcx.free_items@.len(),
    ensures
        all_asked_at(free_items_items(tcx, strategy, n), dummy_sp()),
    decreases n,
{
    if n > 0 {
        lemma_free_items_ask_at_no_place(tcx, strategy, (n - 1) as nat);
        free_item_asks_at_no_place(tcx, strategy, ItemId { index: (n - 1) as usize });
    }
}

proof fn lemma_impl_items_ask_at_no_place(
    tcx: TyCtxt,
    strategy: MonoItemCollectionStrategy,
    n: nat,
)
    ensures
        all_asked_at(impl_items_items(tcx, strategy, n), dummy_sp()),
    decreases n,
{
    if n > 0 {
        lemma_impl_items_ask_at_no_place(tcx, strategy, (n - 1) as nat);
    }
}

/// `node` is a function that has no code of its own: a method that is looked up
/// when it is called, an intrinsic, or the access to a thread-local static.
pub open spec fn is_codeless(tcx: TyCtxt, node: MonoItem) -> bool {
    match node {
        MonoItem::Fn(instance) => match tcx.instances@[instance.index as int].def {
            InstanceKind::Virtual(..)
            | InstanceKind::Intrinsic(_)
            | InstanceKind::ThreadLocalShim(_) => true,
            _ => false,
        },
        _ => false,
    }
}

/// A use of an instance asks for at most two things. Each is a function that has
/// code of its own, asked for at the place of the use.
pub proof fn use_asks_for_code(
    tcx: TyCtxt,
    instance: Instance,
    is_direct_call: bool,
    source: Span,
)
    requires
        tcx.wf(),
        tcx.has_instance(instance),
        instance_use_collectable(tcx, instance, is_direct_call),
    ensures
        instance_use_items(tcx, instance, is_direct_call, source).len() <= 2,
        forall|i: int|
            0 <= i < instance_use_items(tcx, instance, is_direct_call, source).len() ==> {
                let item = #[trigger] instance_use_items(tcx, instance, is_direct_call, source)[i];
                item.node is Fn && item.span == source && !is_codeless(tcx, item.node)
            },
{
    assert(tcx.instance_wf(tcx.instances@[instance.index as int]));
}

/// What a use of an instance does to a collection `s`: all that was there stays
/// where it was, and behind it come at most two functions, with the place of the
/// use. Where nothing without code of its own was there, nothing such is there
/// afterwards.
pub proof fn use_adds_only_code(
    tcx: TyCtxt,
    instance: Instance,
    is_direct_call: bool,
    source: Span,
    s: Seq<Spanned<MonoItem>>,
)
    requires
        tcx.wf(),
        tcx.has_instance(instance),
        instance_use_collectable(tcx, instance, is_direct_call),
    ensures
        ({
            let after = extended(s, instance_use_items(tcx, instance, is_direct_call, source));
            &&& s.is_prefix_of(after)
            &&& after.len() <= s.len() + 2
            &&& forall|i: int|
                s.len() <= i < after.len() ==> (#[trigger] after[i]).node is Fn && after[i].span
                    == source && !is_codeless(tcx, after[i].node)
            &&& (forall|i: int| 0 <= i < s.len() ==> !is_codeless(tcx, (#[trigger] s[i]).node))
                ==> (forall|i: int|
                0 <= i < after.len() ==> !is_codeless(tcx, (#[trigger] after[i]).node))
        }),
{
    let items = instance_use_items(tcx, instance, is_direct_call, source);
    let after = extended(s, items);
    use_asks_for_code(tcx, instance, is_direct_call, source);
    extended_adds_only_requests(s, items);
    extended_keeps_order(s, items, 0);
    assert forall|i: int| s.len() <= i < after.len() implies (#[trigger] after[i]).node is Fn
        && after[i].span == source && !is_codeless(tcx, after[i].node) by {
        assert(items.contains(after[i]));
        assert(items[items.index_of(after[i])] == after[i]);
    }
    assert forall|i: int| 0 <= i < s.len() implies s[i] == #[trigger] after[i] by {}
}

/// A drop asks for what a use of the type's drop glue asks for: for the glue,
/// where its code is generated in this crate, unless it is called at once and
/// there is nothing to drop. In that case a collection `s` stays as it is.
pub proof fn drop_asks_for_its_glue(
    tcx: TyCtxt,
    ty: Ty,
    is_direct_call: bool,
    source: Span,
    s: Seq<Spanned<MonoItem>>,
)
    requires
        tcx.wf(),
        ty.index < tcx.types@.len(),
        drop_use_collectable(tcx, ty),
    ensures
        ({
            let glue = tcx.types@[ty.index as int].drop_in_place->0;
            let items = drop_use_items(tcx, ty, is_direct_call, source);
            let nothing_to_drop = tcx.instances@[glue.index as int].def matches
                InstanceKind::DropGlue(_, None);
            &&& items == instance_use_items(tcx, glue, is_direct_call, source)
            &&& items == if tcx.codegen_locally(glue) && !(is_direct_call && nothing_to_drop) {
                seq![fn_item(glue, source)]
            } else {
                seq![]
            }
            &&& is_direct_call && nothing_to_drop ==> extended(s, items) == s
        }),
{
    let glue = tcx.types@[ty.index as int].drop_in_place->0;
    let items = drop_use_items(tcx, ty, is_direct_call, source);
    lemma_drop_use_collectable(tcx, ty, is_direct_call);
    use_without_code_asks_for_nothing(tcx, glue, is_direct_call, source);
    lemma_extended_one(s);
    assert(tcx.type_wf(ty.index as int));
    assert(tcx.instance_wf(tcx.instances@[glue.index as int]));
    if items.len() > 0 {
        assert(items =~= seq![fn_item(glue, source)]);
    }
}

/// A constant need not be used for what it refers to: to declare it is enough.
pub proof fn targets_of_constant_are_roots(
    tcx: TyCtxt,
    strategy: MonoItemCollectionStrategy,
    id: ItemId,
    value: ConstValue,
    node: MonoItem,
)
    requires
        id.index < tcx.free_items@.len(),
        tcx.free_items@[id.index as int] == ItemKind::Const(Some(value)),
        has_node(const_items(tcx, value), node),
        tcx.instantiable(node),
    ensures
        roots(tcx, strategy).contains(node),
{
    root_is_asked_for(tcx, strategy, node);
    assert(id == ItemId { index: id.index as int as usize });
    assert(free_item_asks(tcx, strategy, id.index as int, node));
}

/// When everything counts, a type that is not generic and can have values has
/// its drop glue among the roots, unless there is nothing to drop or the glue is
/// found in another crate.
pub proof fn drop_glue_is_eager_root(
    tcx: TyCtxt,
    id: ItemId,
    adt: AdtDef,
    ty: Ty,
    glue: Instance,
    def_id: DefId,
    dropped: Ty,
)
    requires
        id.index < tcx.free_items@.len(),
        tcx.free_items@[id.index as int] == ItemKind::Struct(adt) || tcx.free_items@[id.index as int]
            == ItemKind::Enum(adt) || tcx.free_items@[id.index as int] == ItemKind::Union(adt),
        adt.generics_empty,
        !adt.impossible_predicates,
        adt.ty == Some(ty),
        tcx.types@[ty.index as int].drop_in_place == Some(glue),
        tcx.codegen_locally(glue),
        tcx.instances@[glue.index as int].def == InstanceKind::DropGlue(def_id, Some(dropped)),
        tcx.instantiable(MonoItem::Fn(glue)),
    ensures
        roots(tcx, MonoItemCollectionStrategy::Eager).contains(MonoItem::Fn(glue)),
{
    let eager = MonoItemCollectionStrategy::Eager;
    let node = MonoItem::Fn(glue);
    root_is_asked_for(tcx, eager, node);
    assert(id == ItemId { index: id.index as int as usize });
    let items = item_items(tcx, eager, tcx.entry_fn, id);
    assert(items.last().node == node);
    assert(items[items.len() - 1].node == node);
    assert(free_item_asks(tcx, eager, id.index as int, node));
}

/// What the methods of a trait ask for in an impl is what the inherited ones
/// among them ask for.
proof fn lemma_provided_methods_nodes(
    tcx: TyCtxt,
    def: ImplDef,
    methods: Seq<ProvidedMethod>,
    node: MonoItem,
)
    ensures
        has_node(provided_methods_items(tcx, def, methods), node) <==> exists|i: int|
            0 <= i < methods.len() && has_node(
                provided_method_items(tcx, def, #[trigger] methods[i]),
                node,
            ),
    decreases methods.len(),
{
    if methods.len() > 0 {
        let front = methods.drop_last();
        lemma_provided_methods_nodes(tcx, def, front, node);
        lemma_has_node_append(
            provided_methods_items(tcx, def, front),
            provided_method_items(tcx, def, methods.last()),
            node,
        );
        if exists|i: int|
            0 <= i < methods.len() && has_node(
                provided_method_items(tcx, def, #[trigger] methods[i]),
                node,
            ) {
            let i = choose|i: int|
                0 <= i < methods.len() && has_node(
                    provided_method_items(tcx, def, #[trigger] methods[i]),
                    node,
                );
            if i < front.len() {
                assert(front[i] == methods[i]);
            }
        }
        if has_node(provided_methods_items(tcx, def, front), node) {
            let i = choose|i: int|
                0 <= i < front.len() && has_node(
                    provided_method_items(tcx, def, #[trigger] front[i]),
                    node,
                );
            assert(methods[i] == front[i]);
        } else if has_node(provided_method_items(tcx, def, methods.last()), node) {
            assert(methods[methods.len() - 1] == methods.last());
        }
    }
}

/// An impl asks for a function exactly where it takes a method over from its
/// trait, that method is the function, all predicates of the function hold, and
/// its code is generated in this crate.
pub proof fn impl_asks_for_inherited_methods(tcx: TyCtxt, def: ImplDef, node: MonoItem)
    ensures
        has_node(default_impl_items(tcx, def), node) <==> impl_inherits(def) && exists|i: int|
            0 <= i < def.provided_methods@.len() && inherited(
                def,
                #[trigger] def.provided_methods@[i],
            ) && node == MonoItem::Fn(def.provided_methods@[i].instance->0) && tcx.instantiable(
                node,
            ) && generated_here(tcx, node),
{
    let methods = def.provided_methods@;
    lemma_provided_methods_nodes(tcx, def, methods, node);
    if has_node(default_impl_items(tcx, def), node) {
        let i = choose|i: int|
            0 <= i < methods.len() && has_node(
                provided_method_items(tcx, def, #[trigger] methods[i]),
                node,
            );
        assert(inherited(def, methods[i]));
    }
    if impl_inherits(def) && exists|i: int|
        0 <= i < methods.len() && inherited(def, #[trigger] methods[i]) && node == MonoItem::Fn(
            methods[i].instance->0,
        ) && tcx.instantiable(node) && generated_here(tcx, node) {
        let i = choose|i: int|
            0 <= i < methods.len() && inherited(def, #[trigger] methods[i]) && node
                == MonoItem::Fn(methods[i].instance->0) && tcx.instantiable(node)
                && generated_here(tcx, node);
        assert(provided_method_items(tcx, def, methods[i])[0].node == node);
        assert(has_node(provided_method_items(tcx, def, methods[i]), node));
    }
}

/// The impl `def` adds `method`: it takes it over from its trait, all predicates
/// of the function hold, and its code is generated in this crate.
pub open spec fn adds_method(tcx: TyCtxt, def: ImplDef, method: ProvidedMethod) -> bool {
    let node = MonoItem::Fn(method.instance->0);
    inherited(def, method) && tcx.instantiable(node) && generated_here(tcx, node)
}

/// `item` is the request for `method`.
pub open spec fn is_request_for(item: Spanned<MonoItem>, method: ProvidedMethod) -> bool {
    item == fn_item(method.instance->0, dummy_sp())
}

/// `item` is the request for one of `methods`.
spec fn is_request_for_one(item: Spanned<MonoItem>, methods: Seq<ProvidedMethod>) -> bool {
    exists|p: int| 0 <= p < methods.len() && is_request_for(item, #[trigger] methods[p])
}

/// `first` and `second` are the requests for two of `methods`, in their order.
pub open spec fn are_requests_in_order(
    first: Spanned<MonoItem>,
    second: Spanned<MonoItem>,
    methods: Seq<ProvidedMethod>,
) -> bool {
    exists|p: int, q: int|
        0 <= p < q < methods.len() && is_request_for(first, #[trigger] methods[p])
            && is_request_for(second, #[trigger] methods[q])
}

proof fn lemma_provided_methods_kept(tcx: TyCtxt, def: ImplDef, methods: Seq<ProvidedMethod>)
    ensures
        provided_methods_items(tcx, def, methods) == methods.filter(
            |method: ProvidedMethod| adds_method(tcx, def, method),
        ).map_values(|method: ProvidedMethod| fn_item(method.instance->0, dummy_sp())),
        all_asked_at(provided_methods_items(tcx, def, methods), dummy_sp()),
    decreases methods.len(),
{
    reveal(Seq::filter);
    let added = |method: ProvidedMethod| adds_method(tcx, def, method);
    let request = |method: ProvidedMethod| fn_item(method.instance->0, dummy_sp());
    if methods.len() > 0 {
        let front = methods.drop_last();
        lemma_provided_methods_kept(tcx, def, front);
        assert(provided_methods_items(tcx, def, methods) =~= methods.filter(added).map_values(
            request,
        ));
    } else {
        assert(methods.filter(added).map_values(request) =~= Seq::<Spanned<MonoItem>>::empty());
    }
}

proof fn lemma_provided_methods_in_order(tcx: TyCtxt, def: ImplDef, methods: Seq<ProvidedMethod>)
    ensures
        ({
            let items = provided_methods_items(tcx, def, methods);
            &&& forall|k: int|
                0 <= k < items.len() ==> is_request_for_one(#[trigger] items[k], methods)
            &&& forall|k: int, l: int|
                0 <= k < l < items.len() ==> are_requests_in_order(
                    #[trigger] items[k],
                    #[trigger] items[l],
                    methods,
                )
        }),
    decreases methods.len(),
{
    if methods.len() > 0 {
        let items = provided_methods_items(tcx, def, methods);
        let front = methods.drop_last();
        let before = provided_methods_items(tcx, def, front);
        let last = methods.len() - 1;
        lemma_provided_methods_in_order(tcx, def, front);
        assert forall|k: int| 0 <= k < items.len() implies is_request_for_one(
            #[trigger] items[k],
            methods,
        ) by {
            if k < before.len() {
                assert(is_request_for_one(before[k], front));
                let p = choose|p: int|
                    0 <= p < front.len() && is_request_for(before[k], #[trigger] front[p]);
                assert(methods[p] == front[p]);
            } else {
                assert(is_request_for(items[k], methods[last]));
            }
        }
        assert forall|k: int, l: int| 0 <= k < l < items.len() implies are_requests_in_order(
            #[trigger] items[k],
            #[trigger] items[l],
            methods,
        ) by {
            if l < before.len() {
                assert(are_requests_in_order(before[k], before[l], front));
                let (p, q) = choose|p: int, q: int|
                    0 <= p < q < front.len() && is_request_for(before[k], #[trigger] front[p])
                        && is_request_for(before[l], #[trigger] front[q]);
                assert(methods[p] == front[p] && methods[q] == front[q]);
            } else {
                assert(is_request_for_one(before[k], front));
                let p = choose|p: int|
                    0 <= p < front.len() && is_request_for(before[k], #[trigger] front[p]);
                assert(methods[p] == front[p]);
                assert(is_request_for(items[l], methods[last]));
            }
        }
    }
}

/// The methods that an impl adds follow the order of the trait: its requests are
/// those for the methods of the trait that it adds, one each, with the others
/// left out. Of two requests, the first is for a method that comes first in the
/// trait, and the same is true of what comes into a collection `s`.
pub proof fn added_methods_follow_the_trait(
    tcx: TyCtxt,
    def: ImplDef,
    s: Seq<Spanned<MonoItem>>,
)
    ensures
        ({
            let methods = def.provided_methods@;
            let items = default_impl_items(tcx, def);
            let after = extended(s, items);
            &&& items == if impl_inherits(def) {
                methods.filter(
                    |method: ProvidedMethod| adds_method(tcx, def, method),
                ).map_values(|method: ProvidedMethod| fn_item(method.instance->0, dummy_sp()))
            } else {
                seq![]
            }
            &&& forall|k: int, l: int|
                0 <= k < l < items.len() ==> are_requests_in_order(
                    #[trigger] items[k],
                    #[trigger] items[l],
                    methods,
                )
            &&& forall|k: int, l: int|
                s.len() <= k < l < after.len() ==> are_requests_in_order(
                    #[trigger] after[k],
                    #[trigger] after[l],
                    methods,
                )
        }),
{
    let methods = def.provided_methods@;
    let items = default_impl_items(tcx, def);
    let after = extended(s, items);
    lemma_provided_methods_kept(tcx, def, methods);
    lemma_provided_methods_in_order(tcx, def, methods);
    extended_adds_in_order(s, items);
    assert forall|k: int, l: int| s.len() <= k < l < after.len() implies are_requests_in_order(
        #[trigger] after[k],
        #[trigger] after[l],
        methods,
    ) by {
        assert(are_in_order(after[k], after[l], items));
        let (p, q) = choose|p: int, q: int|
            0 <= p < q < items.len() && after[k] == #[trigger] items[p] && after[l]
                == #[trigger] items[q];
        assert(are_requests_in_order(items[p], items[q], methods));
    }
}

proof fn lemma_all_alloc_items_flat(tcx: TyCtxt, ids: Seq<AllocId>, bound: usize)
    requires
        tcx.wf(),
        tcx.has_allocs_below(ids, bound as int),
    ensures
        all_alloc_items(tcx, ids, bound) == ids.map_values(
            |id: AllocId| alloc_items(tcx, id),
        ).flatten(),
    decreases ids.len(),
{
    let asked = |id: AllocId| alloc_items(tcx, id);
    if ids.len() > 0 {
        let rest = ids.drop_first();
        assert forall|i: int| 0 <= i < rest.len() implies tcx.has_alloc_below(
            #[trigger] rest[i],
            bound as int,
        ) by {
            assert(tcx.has_alloc_below(ids[i + 1], bound as int));
        }
        lemma_all_alloc_items_flat(tcx, rest, bound);
        assert(ids.map_values(asked).drop_first() =~= rest.map_values(asked));
    }
}

/// What an allocation asks for, in its order: a function or a static asks for
/// itself where its code is generated in this crate, memory for what its pointers
/// ask for, one pointer after the other, and a vtable for what its memory asks for.
pub proof fn alloc_asks_in_the_order_of_its_pointers(tcx: TyCtxt, a: AllocId)
    requires
        tcx.wf(),
        a.index < tcx.allocs@.len(),
    ensures
        match tcx.allocs@[a.index as int] {
            GlobalAlloc::Static(id) => {
                let instance = tcx.statics@[id.index as int].instance;
                alloc_items(tcx, a) == if tcx.instances@[instance.index as int].codegen_locally {
                    seq![Spanned { node: MonoItem::Static(id), span: Span { lo: 0, hi: 0 } }]
                } else {
                    seq![]
                }
            },
            GlobalAlloc::Function(instance) => {
                alloc_items(tcx, a) == if tcx.instances@[instance.index as int].codegen_locally {
                    seq![Spanned { node: MonoItem::Fn(instance), span: Span { lo: 0, hi: 0 } }]
                } else {
                    seq![]
                }
            },
            GlobalAlloc::Memory(ptrs) => {
                alloc_items(tcx, a) == ptrs@.map_values(
                    |id: AllocId| alloc_items(tcx, id),
                ).flatten()
            },
            GlobalAlloc::VTable(memory) => alloc_items(tcx, a) == alloc_items(tcx, memory),
        },
{
    assert(tcx.alloc_wf(a.index as int));
    if let GlobalAlloc::Memory(ptrs) = tcx.allocs@[a.index as int] {
        lemma_all_alloc_items_flat(tcx, ptrs@, a.index);
    }
}

/// What a constant asks for, in its order: a pointer, and a value in memory, for
/// what its allocation asks for, a slice for what its pointers ask for, one after
/// the other, and a value that points nowhere for nothing.
pub proof fn const_asks_in_the_order_of_its_pointers(tcx: TyCtxt, value: ConstValue)
    requires
        tcx.wf(),
        tcx.const_wf(value),
    ensures
        match value {
            ConstValue::Scalar(Scalar::Ptr(a)) => const_items(tcx, value) == alloc_items(tcx, a),
            ConstValue::Indirect { alloc_id } => const_items(tcx, value) == alloc_items(
                tcx,
                alloc_id,
            ),
            ConstValue::Slice { data } => const_items(tcx, value) == data@.map_values(
                |id: AllocId| alloc_items(tcx, id),
            ).flatten(),
            ConstValue::Scalar(Scalar::Int) => const_items(tcx, value).len() == 0,
            ConstValue::ZeroSized => const_items(tcx, value).len() == 0,
        },
{
    if let ConstValue::Slice { data } = value {
        lemma_all_alloc_items_flat(tcx, data@, tcx.allocs.len());
    }
}

/// The constant `value` names the allocation `a`: it is a pointer to it, it lies
/// in it, or it is a slice with a pointer to it.
pub open spec fn names_alloc(value: ConstValue, a: AllocId) -> bool {
    match value {
        ConstValue::Scalar(Scalar::Ptr(alloc_id)) => alloc_id == a,
        ConstValue::Indirect { alloc_id } => alloc_id == a,
        ConstValue::Slice { data } => data@.contains(a),
        ConstValue::Scalar(Scalar::Int) => false,
        ConstValue::ZeroSized => false,
    }
}

/// A constant asks for the functions and statics that can be reached from an
/// allocation that it names and whose code is generated in this crate: for all of
/// them, and for nothing else.
pub proof fn const_asks_for_what_it_reaches(tcx: TyCtxt, value: ConstValue, node: MonoItem)
    requires
        tcx.wf(),
        tcx.const_wf(value),
    ensures
        has_node(const_items(tcx, value), node) <==> generated_here(tcx, node) && exists|
            a: AllocId,
            b: AllocId,
        |
            names_alloc(value, a) && #[trigger] reaches(tcx, a, b) && stands_for(tcx, b, node),
{
    match value {
        ConstValue::Scalar(Scalar::Ptr(a)) => {
            alloc_asks_for_what_it_reaches(tcx, a, node);
            if has_node(const_items(tcx, value), node) {
                let b = choose|b: AllocId| #[trigger]
                    reaches(tcx, a, b) && stands_for(tcx, b, node);
                assert(names_alloc(value, a) && reaches(tcx, a, b));
            }
        },
        ConstValue::Indirect { alloc_id: a } => {
            alloc_asks_for_what_it_reaches(tcx, a, node);
            if has_node(const_items(tcx, value), node) {
                let b = choose|b: AllocId| #[trigger]
                    reaches(tcx, a, b) && stands_for(tcx, b, node);
                assert(names_alloc(value, a) && reaches(tcx, a, b));
            }
        },
        ConstValue::Slice { data } => {
            lemma_all_alloc_nodes(tcx, data@, tcx.allocs.len(), node);
            assert forall|i: int| 0 <= i < data@.len() implies (#[trigger] data@[i]).index
                < tcx.allocs@.len() by {
                assert(tcx.has_alloc_below(data@[i], tcx.allocs@.len() as int));
            }
            if has_node(const_items(tcx, value), node) {
                let i = choose|i: int|
                    0 <= i < data@.len() && has_node(alloc_items(tcx, #[trigger] data@[i]), node);
                alloc_asks_for_what_it_reaches(tcx, data@[i], node);
                let b = choose|b: AllocId| #[trigger]
                    reaches(tcx, data@[i], b) && stands_for(tcx, b, node);
                assert(names_alloc(value, data@[i]) && reaches(tcx, data@[i], b));
            }
            if generated_here(tcx, node) && exists|a: AllocId, b: AllocId|
                names_alloc(value, a) && #[trigger] reaches(tcx, a, b) && stands_for(
                    tcx,
                    b,
                    node,
                ) {
                let (a, b) = choose|a: AllocId, b: AllocId|
                    names_alloc(value, a) && #[trigger] reaches(tcx, a, b) && stands_for(
                        tcx,
                        b,
                        node,
                    );
                let i = data@.index_of(a);
                assert(data@[i] == a);
                alloc_asks_for_what_it_reaches(tcx, a, node);
            }
        },
        _ => {},
    }
}

/// A constant can be collected unless a thread-local static can be reached from an
/// allocation that it names.
pub proof fn const_collectable_unless_thread_local(tcx: TyCtxt, value: ConstValue)
    requires
        tcx.wf(),
        tcx.const_wf(value),
    ensures
        const_collectable(tcx, value) <==> forall|a: AllocId, b: AllocId|
            names_alloc(value, a) && #[trigger] reaches(tcx, a, b) ==> !is_thread_local(tcx, b),
{
    match value {
        ConstValue::Scalar(Scalar::Ptr(a)) => {
            alloc_collectable_unless_thread_local(tcx, a);
            assert(names_alloc(value, a));
        },
        ConstValue::Indirect { alloc_id: a } => {
            alloc_collectable_unless_thread_local(tcx, a);
            assert(names_alloc(value, a));
        },
        ConstValue::Slice { data } => {
            assert forall|i: int| 0 <= i < data@.len() implies (alloc_collectable(
                tcx,
                #[trigger] data@[i],
            ) <==> forall|b: AllocId| #[trigger]
                reaches(tcx, data@[i], b) ==> !is_thread_local(tcx, b)) by {
                assert(tcx.has_alloc_below(data@[i], tcx.allocs@.len() as int));
                alloc_collectable_unless_thread_local(tcx, data@[i]);
            }
            if const_collectable(tcx, value) {
                assert forall|a: AllocId, b: AllocId|
                    names_alloc(value, a) && #[trigger] reaches(tcx, a, b) implies !is_thread_local(
                    tcx,
                    b,
                ) by {
                    let i = data@.index_of(a);
                    assert(alloc_collectable(tcx, data@[i]));
                }
            } else {
                let i = choose|i: int|
                    0 <= i < data@.len() && !alloc_collectable(tcx, #[trigger] data@[i]);
                let b = lemma_uncollectable_reaches_known(tcx, data@, i);
                assert(names_alloc(value, data@[i]) && reaches(tcx, data@[i], b));
            }
        },
        _ => {},
    }
}

proof fn lemma_uncollectable_reaches_known(tcx: TyCtxt, ids: Seq<AllocId>, i: int) -> (b: AllocId)
    requires
        tcx.wf(),
        tcx.has_allocs_below(ids, tcx.allocs@.len() as int),
        0 <= i < ids.len(),
        !alloc_collectable(tcx, ids[i]),
    ensures
        reaches(tcx, ids[i], b),
        is_thread_local(tcx, b),
{
    assert(tcx.has_alloc_below(ids[i], tcx.allocs@.len() as int));
    lemma_uncollectable_reaches(tcx, ids[i])
}

/// A use of `instance` asks for the instance itself: it has code of its own, and
/// is not drop glue that does nothing and is called at once.
pub open spec fn use_asks_for_itself(
    tcx: TyCtxt,
    instance: Instance,
    is_direct_call: bool,
) -> bool {
    let data = tcx.instances@[instance.index as int];
    data.codegen_locally && !is_codeless(tcx, MonoItem::Fn(instance)) && !(is_direct_call
        && is_empty_glue(data.def))
}

/// A use of `instance` asks for `other` because its definition is an intrinsic:
/// for the function to panic with, where it asserts validity, and else for the
/// body to fall back on, unless the code generator has to replace it.
pub open spec fn use_asks_for_help(tcx: TyCtxt, instance: Instance, other: Instance) -> bool {
    let data = tcx.instances@[instance.index as int];
    &&& data.codegen_locally
    &&& data.intrinsic is Some
    &&& tcx.instances@[other.index as int].codegen_locally
    &&& data.intrinsic->0.asserts_validity ==> other == tcx.panic_nounwind->0
    &&& !data.intrinsic->0.asserts_validity ==> !data.intrinsic->0.must_be_overridden && other
        == data.intrinsic->0.fallback
}

/// A use of an instance asks for what helps it as an intrinsic, and then for the
/// instance itself: for each of the two where there is reason to, once, and for
/// nothing else.
pub proof fn use_asks_for_itself_and_its_help(
    tcx: TyCtxt,
    instance: Instance,
    other: Instance,
    is_direct_call: bool,
    source: Span,
)
    ensures
        ({
            let items = instance_use_items(tcx, instance, is_direct_call, source);
            let itself = Spanned { node: MonoItem::Fn(instance), span: source };
            let help = Spanned { node: MonoItem::Fn(other), span: source };
            &&& use_asks_for_itself(tcx, instance, is_direct_call) && use_asks_for_help(
                tcx,
                instance,
                other,
            ) ==> items == seq![help, itself]
            &&& !use_asks_for_itself(tcx, instance, is_direct_call) && use_asks_for_help(
                tcx,
                instance,
                other,
            ) ==> items == seq![help]
            &&& use_asks_for_itself(tcx, instance, is_direct_call) && !(exists|o: Instance|
                use_asks_for_help(tcx, instance, o)) ==> items == seq![itself]
            &&& !use_asks_for_itself(tcx, instance, is_direct_call) && !(exists|o: Instance|
                use_asks_for_help(tcx, instance, o)) ==> items == Seq::<Spanned<MonoItem>>::empty()
        }),
{
    let items = instance_use_items(tcx, instance, is_direct_call, source);
    let itself = Spanned { node: MonoItem::Fn(instance), span: source };
    let data = tcx.instances@[instance.index as int];
    if use_asks_for_help(tcx, instance, other) {
        let help = Spanned { node: MonoItem::Fn(other), span: source };
        assert(intrinsic_items(tcx, instance, source) =~= seq![help]);
        if use_asks_for_itself(tcx, instance, is_direct_call) {
            assert(items =~= seq![help, itself]);
        } else {
            assert(items =~= seq![help]);
        }
    }
    if !(exists|o: Instance| use_asks_for_help(tcx, instance, o)) {
        assert(!use_asks_for_help(tcx, instance, tcx.panic_nounwind->0));
        assert(!use_asks_for_help(tcx, instance, data.intrinsic->0.fallback));
        if data.codegen_locally {
            assert(intrinsic_items(tcx, instance, source) =~= seq![]);
        }
        if use_asks_for_itself(tcx, instance, is_direct_call) {
            assert(items =~= seq![itself]);
        } else {
            assert(items =~= seq![]);
        }
    }
}

/// An instance can be used so unless its code is generated in this crate and one
/// of three things holds: it asserts validity and there is no function to panic
/// with, it is looked up when it is called or an intrinsic and is not called at
/// once, or it is the access to a thread-local static.
pub proof fn use_collectable_unless_stuck(tcx: TyCtxt, instance: Instance, is_direct_call: bool)
    ensures
        ({
            let data = tcx.instances@[instance.index as int];
            let asserts = data.intrinsic is Some && data.intrinsic->0.asserts_validity;
            !instance_use_collectable(tcx, instance, is_direct_call) <==> data.codegen_locally && (
            asserts && tcx.panic_nounwind is None || !is_direct_call && (data.def is Virtual
                || data.def is Intrinsic) || data.def is ThreadLocalShim)
        }),
{
}

/// All predicates of `node` hold.
pub open spec fn can_be_used(tcx: TyCtxt, node: MonoItem) -> bool {
    match node {
        MonoItem::Fn(instance) => tcx.instances@[instance.index as int].instantiable,
        MonoItem::Static(id) => tcx.statics@[id.index as int].instantiable,
        MonoItem::GlobalAsm(id) => tcx.free_items@[id.index as int]->GlobalAsm_0.instantiable,
    }
}

/// The function `def` counts: it is not generic, and everything counts, or other
/// crates can reach it, or the standard library relies on it, or the crate is
/// entered through it.
pub open spec fn function_counts(
    tcx: TyCtxt,
    strategy: MonoItemCollectionStrategy,
    def: FnDef,
) -> bool {
    &&& !def.requires_monomorphization
    &&& {
        ||| strategy is Eager
        ||| def.reachable_non_generic
        ||| def.rustc_std_internal_symbol
        ||| tcx.entry_fn is Some && tcx.entry_fn->0.def_id == (DefId {
            krate: 0,
            index: def.def_id.index,
        })
    }
}

/// The impl `def` takes `method` over from its trait, and neither of them has
/// type or const parameters.
pub open spec fn takes_over(def: ImplDef, method: ProvidedMethod) -> bool {
    &&& def.polarity == Some(ImplPolarity::Positive) || def.polarity == Some(
        ImplPolarity::Reservation,
    )
    &&& !def.own_requires_monomorphization
    &&& !def.impossible_predicates
    &&& !def.overridden_methods@.contains(method.def_id)
    &&& !method.own_requires_monomorphization
}

/// Which functions count does not depend on anything else.
pub proof fn which_functions_count(
    tcx: TyCtxt,
    strategy: MonoItemCollectionStrategy,
    def: FnDef,
)
    ensures
        fn_is_root(strategy, tcx.entry_fn, def) <==> function_counts(tcx, strategy, def),
        fn_items(strategy, tcx.entry_fn, def) == if function_counts(tcx, strategy, def) {
            seq![
                Spanned { node: MonoItem::Fn(def.instance->0), span: Span { lo: 0, hi: 0 } },
            ]
        } else {
            seq![]
        },
{
}

/// A function that is not generic is a root where everything counts, and, free or
/// in an impl, under either strategy and however the crate is entered, where other
/// crates can reach it or the standard library relies on it.
pub proof fn reachable_function_is_root(
    tcx: TyCtxt,
    strategy: MonoItemCollectionStrategy,
    def: FnDef,
    instance: Instance,
)
    requires
        tcx.free_items@.contains(ItemKind::Fn(def)) || tcx.impl_items@.contains(
            ImplItemKind::AssocFn(def),
        ),
        !def.requires_monomorphization,
        def.instance == Some(instance),
        tcx.instances@[instance.index as int].instantiable,
    ensures
        def.reachable_non_generic || def.rustc_std_internal_symbol ==> roots(
            tcx,
            strategy,
        ).contains(MonoItem::Fn(instance)),
        roots(tcx, MonoItemCollectionStrategy::Eager).contains(MonoItem::Fn(instance)),
        tcx.entry_fn is Some && tcx.entry_fn->0.def_id == (DefId {
            krate: 0,
            index: def.def_id.index,
        }) ==> roots(tcx, strategy).contains(MonoItem::Fn(instance)),
{
    if function_counts(tcx, strategy, def) {
        lemma_function_that_counts(tcx, strategy, def);
    }
    lemma_function_that_counts(tcx, MonoItemCollectionStrategy::Eager, def);
}

proof fn lemma_function_that_counts(
    tcx: TyCtxt,
    strategy: MonoItemCollectionStrategy,
    def: FnDef,
)
    requires
        tcx.free_items@.contains(ItemKind::Fn(def)) || tcx.impl_items@.contains(
            ImplItemKind::AssocFn(def),
        ),
        function_counts(tcx, strategy, def),
        tcx.instances@[def.instance->0.index as int].instantiable,
    ensures
        roots(tcx, strategy).contains(MonoItem::Fn(def.instance->0)),
{
    let node = MonoItem::Fn(def.instance->0);
    let asked = fn_items(strategy, tcx.entry_fn, def);
    which_functions_count(tcx, strategy, def);
    root_is_asked_for(tcx, strategy, node);
    assert(asked[0].node == node);
    assert(has_node(asked, node));
    if tcx.free_items@.contains(ItemKind::Fn(def)) {
        let i = tcx.free_items@.index_of(ItemKind::Fn(def));
        assert(i < tcx.free_items.len());
        assert(free_item_asks(tcx, strategy, i, node));
    } else {
        let i = tcx.impl_items@.index_of(ImplItemKind::AssocFn(def));
        assert(impl_item_asks(tcx, strategy, i, node));
    }
}

/// When everything counts, each method that an impl takes over from its trait is a
/// root, whatever crate the trait is of, where all predicates of it hold and its
/// code is generated in this crate.
pub proof fn method_taken_over_is_eager_root(
    tcx: TyCtxt,
    def: ImplDef,
    method: ProvidedMethod,
    instance: Instance,
)
    requires
        tcx.free_items@.contains(ItemKind::Impl(def)),
        def.provided_methods@.contains(method),
        def.polarity == Some(ImplPolarity::Positive) || def.polarity == Some(
            ImplPolarity::Reservation,
        ),
        !def.own_requires_monomorphization,
        !def.impossible_predicates,
        !def.overridden_methods@.contains(method.def_id),
        !method.own_requires_monomorphization,
        method.instance == Some(instance),
        tcx.instances@[instance.index as int].instantiable,
        tcx.instances@[instance.index as int].codegen_locally,
    ensures
        has_node(default_impl_items(tcx, def), MonoItem::Fn(instance)),
        roots(tcx, MonoItemCollectionStrategy::Eager).contains(MonoItem::Fn(instance)),
{
    let eager = MonoItemCollectionStrategy::Eager;
    let node = MonoItem::Fn(instance);
    let m = def.provided_methods@.index_of(method);
    assert(inherited(def, def.provided_methods@[m]));
    impl_asks_for_inherited_methods(tcx, def, node);
    root_is_asked_for(tcx, eager, node);
    let i = tcx.free_items@.index_of(ItemKind::Impl(def));
    assert(i < tcx.free_items.len());
    assert(free_item_asks(tcx, eager, i, node));
}

/// An impl adds the methods that it takes over from its trait, in the order of the
/// trait, as far as all predicates of them hold and their code is generated in
/// this crate, and nothing else.
pub proof fn impl_adds_what_it_takes_over(tcx: TyCtxt, def: ImplDef)
    ensures
        default_impl_items(tcx, def) == def.provided_methods@.filter(
            |method: ProvidedMethod|
                takes_over(def, method)
                    && tcx.instances@[method.instance->0.index as int].instantiable
                    && tcx.instances@[method.instance->0.index as int].codegen_locally,
        ).map_values(
            |method: ProvidedMethod|
                Spanned { node: MonoItem::Fn(method.instance->0), span: Span { lo: 0, hi: 0 } },
        ),
{
    let methods = def.provided_methods@;
    let wanted = |method: ProvidedMethod|
        takes_over(def, method) && tcx.instances@[method.instance->0.index as int].instantiable
            && tcx.instances@[method.instance->0.index as int].codegen_locally;
    let request = |method: ProvidedMethod|
        Spanned { node: MonoItem::Fn(method.instance->0), span: Span { lo: 0, hi: 0 } };
    if impl_inherits(def) {
        let added = |method: ProvidedMethod| adds_method(tcx, def, method);
        added_methods_follow_the_trait(tcx, def, seq![]);
        assert(def.polarity == Some(ImplPolarity::Positive) || def.polarity == Some(
            ImplPolarity::Reservation,
        )) by {
            match def.polarity->0 {
                ImplPolarity::Positive => {},
                ImplPolarity::Negative => {},
                ImplPolarity::Reservation => {},
            }
        }
        assert forall|method: ProvidedMethod| #[trigger] added(method) == wanted(method) by {}
        lemma_filter_agrees(methods, added, wanted);
        assert(methods.filter(added).map_values(
            |method: ProvidedMethod| fn_item(method.instance->0, dummy_sp()),
        ) =~= methods.filter(wanted).map_values(request));
    } else {
        lemma_filter_agrees(methods, |method: ProvidedMethod| false, wanted);
        lemma_filter(methods, |method: ProvidedMethod| false);
        let none = methods.filter(|method: ProvidedMethod| false);
        if none.len() > 0 {
            assert(none.contains(none[0]));
        }
        assert(methods.filter(wanted).map_values(request) =~= seq![]);
    }
}

/// Two tests that agree keep the same.
proof fn lemma_filter_agrees<A>(s: Seq<A>, p: spec_fn(A) -> bool, q: spec_fn(A) -> bool)
    requires
        forall|x: A| #[trigger] p(x) == q(x),
    ensures
        s.filter(p) == s.filter(q),
    decreases s.len(),
{
    reveal(Seq::filter);
    if s.len() > 0 {
        lemma_filter_agrees(s.drop_last(), p, q);
        assert(p(s.last()) == q(s.last()));
    }
}

/// What a free item asks for, by its kind. A struct, enum or union without
/// parameters that can have values asks for its drop glue where everything counts.
/// A block of assembly and a static ask for themselves. A constant asks for what it
/// refers to, an impl for what it takes over where everything counts, and a
/// function for itself where it counts. Anything else asks for nothing.
pub proof fn free_item_asks_by_its_kind(
    tcx: TyCtxt,
    strategy: MonoItemCollectionStrategy,
    id: ItemId,
)
    requires
        tcx.wf(),
        id.index < tcx.free_items@.len(),
        item_collectable(tcx, strategy, tcx.entry_fn, tcx.free_items@[id.index as int]),
    ensures
        ({
            let items = item_items(tcx, strategy, tcx.entry_fn, id);
            let nowhere = Span { lo: 0, hi: 0 };
            match tcx.free_items@[id.index as int] {
                ItemKind::Enum(adt) | ItemKind::Struct(adt) | ItemKind::Union(adt) => {
                    let glue = tcx.types@[adt.ty->0.index as int].drop_in_place->0;
                    let data = tcx.instances@[glue.index as int];
                    items == if strategy is Eager && adt.generics_empty
                        && !adt.impossible_predicates && data.codegen_locally && (
                    data.def matches InstanceKind::DropGlue(_, Some(_))) {
                        seq![Spanned { node: MonoItem::Fn(glue), span: nowhere }]
                    } else {
                        seq![]
                    }
                },
                ItemKind::GlobalAsm(_) => {
                    items == seq![Spanned { node: MonoItem::GlobalAsm(id), span: nowhere }]
                },
                ItemKind::Static(static_id) => {
                    items == seq![Spanned { node: MonoItem::Static(static_id), span: nowhere }]
                },
                ItemKind::Const(Some(value)) => items == const_items(tcx, value),
                ItemKind::Impl(def) => {
                    items == if strategy is Eager {
                        default_impl_items(tcx, def)
                    } else {
                        seq![]
                    }
                },
                ItemKind::Fn(def) => {
                    items == if function_counts(tcx, strategy, def) {
                        seq![Spanned { node: MonoItem::Fn(def.instance->0), span: nowhere }]
                    } else {
                        seq![]
                    }
                },
                ItemKind::Const(None) => items.len() == 0,
                ItemKind::Other => items.len() == 0,
            }
        }),
{
    assert(tcx.item_wf(tcx.free_items@[id.index as int]));
    match tcx.free_items@[id.index as int] {
        ItemKind::Enum(adt) | ItemKind::Struct(adt) | ItemKind::Union(adt) => {
            if strategy is Eager && adt.generics_empty && !adt.impossible_predicates {
                drop_asks_for_its_glue(tcx, adt.ty->0, true, dummy_sp(), seq![]);
                assert(tcx.type_wf(adt.ty->0.index as int));
            }
        },
        _ => {},
    }
}

/// What an item of an impl asks for: a function for itself where it counts,
/// anything else for nothing.
pub proof fn impl_item_asks_by_its_kind(
    tcx: TyCtxt,
    strategy: MonoItemCollectionStrategy,
    item: ImplItemKind,
)
    ensures
        impl_item_items(strategy, tcx.entry_fn, item) == match item {
            ImplItemKind::AssocFn(def) => if function_counts(tcx, strategy, def) {
                seq![Spanned { node: MonoItem::Fn(def.instance->0), span: Span { lo: 0, hi: 0 } }]
            } else {
                seq![]
            },
            ImplItemKind::Other => seq![],
        },
{
}

/// What the entry of a crate asks for: a crate that is entered through `main` for
/// the function that calls it, any other for nothing.
pub proof fn entry_asks_by_its_kind(tcx: TyCtxt)
    ensures
        entry_items(tcx, tcx.entry_fn) == if tcx.entry_fn is Some && (
        tcx.entry_fn->0.kind matches EntryFnType::Main { .. }) {
            seq![
                Spanned { node: MonoItem::Fn(tcx.start_fn->0), span: Span { lo: 0, hi: 0 } },
            ]
        } else {
            seq![]
        },
{
}

proof fn lemma_free_items_flat(tcx: TyCtxt, strategy: MonoItemCollectionStrategy, n: nat)
    ensures
        free_items_items(tcx, strategy, n) == Seq::new(
            n,
            |i: int| item_items(tcx, strategy, tcx.entry_fn, ItemId { index: i as usize }),
        ).flatten(),
    decreases n,
{
    let asked = |i: int| item_items(tcx, strategy, tcx.entry_fn, ItemId { index: i as usize });
    if n > 0 {
        let m = (n - 1) as nat;
        lemma_free_items_flat(tcx, strategy, m);
        Seq::new(m, asked).lemma_flatten_push(asked(m as int));
        assert(Seq::new(n, asked) =~= Seq::new(m, asked).push(asked(m as int)));
    }
}

proof fn lemma_impl_items_flat(tcx: TyCtxt, strategy: MonoItemCollectionStrategy, n: nat)
    ensures
        impl_items_items(tcx, strategy, n) == Seq::new(
            n,
            |i: int| impl_item_items(strategy, tcx.entry_fn, tcx.impl_items@[i]),
        ).flatten(),
    decreases n,
{
    let asked = |i: int| impl_item_items(strategy, tcx.entry_fn, tcx.impl_items@[i]);
    if n > 0 {
        let m = (n - 1) as nat;
        lemma_impl_items_flat(tcx, strategy, m);
        Seq::new(m, asked).lemma_flatten_push(asked(m as int));
        assert(Seq::new(n, asked) =~= Seq::new(m, asked).push(asked(m as int)));
    }
}

/// The roots come in the order of the crate: what its free items ask for, one item
/// after the other, then what the items of its impls ask for, then what its entry
/// asks for. Each is there once, at its first place, and all that can be used is
/// there.
pub proof fn roots_come_in_the_order_of_the_crate(
    tcx: TyCtxt,
    strategy: MonoItemCollectionStrategy,
)
    ensures
        ({
            let free = Seq::new(
                tcx.free_items@.len(),
                |i: int| item_items(tcx, strategy, tcx.entry_fn, ItemId { index: i as usize }),
            ).flatten();
            let impls = Seq::new(
                tcx.impl_items@.len(),
                |i: int| impl_item_items(strategy, tcx.entry_fn, tcx.impl_items@[i]),
            ).flatten();
            let asked = free + impls + entry_items(tcx, tcx.entry_fn);
            roots(tcx, strategy) == extended(seq![], asked).map_values(
                |item: Spanned<MonoItem>| item.node,
            ).filter(|node: MonoItem| can_be_used(tcx, node))
        }),
{
    lemma_free_items_flat(tcx, strategy, tcx.free_items@.len());
    lemma_impl_items_flat(tcx, strategy, tcx.impl_items@.len());
    lemma_filter_agrees(
        nodes(extended(seq![], crate_items(tcx, strategy))),
        |item: MonoItem| tcx.instantiable(item),
        |node: MonoItem| can_be_used(tcx, node),
    );
}

/// The free item at place `i` is a reason to generate code for `node`.
pub open spec fn item_wants(
    tcx: TyCtxt,
    strategy: MonoItemCollectionStrategy,
    i: int,
    node: MonoItem,
) -> bool {
    match tcx.free_items@[i] {
        ItemKind::Enum(adt) | ItemKind::Struct(adt) | ItemKind::Union(adt) => {
            &&& strategy is Eager
            &&& adt.generics_empty
            &&& !adt.impossible_predicates
            &&& node is Fn
            &&& tcx.types@[adt.ty->0.index as int].drop_in_place == Some(node->Fn_0)
            &&& tcx.instances@[node->Fn_0.index as int].codegen_locally
            &&& tcx.instances@[node->Fn_0.index as int].def matches InstanceKind::DropGlue(
                _,
                Some(_),
            )
        },
        ItemKind::GlobalAsm(_) => node == MonoItem::GlobalAsm(ItemId { index: i as usize }),
        ItemKind::Static(id) => node == MonoItem::Static(id),
        ItemKind::Const(Some(value)) => generated_here(tcx, node) && exists|
            a: AllocId,
            b: AllocId,
        |
            names_alloc(value, a) && #[trigger] reaches(tcx, a, b) && stands_for(tcx, b, node),
        ItemKind::Impl(def) => strategy is Eager && exists|m: int|
            0 <= m < def.provided_methods@.len() && takes_over(
                def,
                #[trigger] def.provided_methods@[m],
            ) && node == MonoItem::Fn(def.provided_methods@[m].instance->0) && can_be_used(
                tcx,
                node,
            ) && generated_here(tcx, node),
        ItemKind::Fn(def) => function_counts(tcx, strategy, def) && node == MonoItem::Fn(
            def.instance->0,
        ),
        ItemKind::Const(None) => false,
        ItemKind::Other => false,
    }
}

/// The item of an impl at place `i` is a reason to generate code for `node`.
pub open spec fn impl_item_wants(
    tcx: TyCtxt,
    strategy: MonoItemCollectionStrategy,
    i: int,
    node: MonoItem,
) -> bool {
    match tcx.impl_items@[i] {
        ImplItemKind::AssocFn(def) => function_counts(tcx, strategy, def) && node == MonoItem::Fn(
            def.instance->0,
        ),
        ImplItemKind::Other => false,
    }
}

/// The entry of the crate is a reason to generate code for `node`.
pub open spec fn entry_wants(tcx: TyCtxt, node: MonoItem) -> bool {
    tcx.entry_fn is Some && tcx.entry_fn->0.kind is Main && node == MonoItem::Fn(tcx.start_fn->0)
}

proof fn lemma_has_only(item: Spanned<MonoItem>, node: MonoItem)
    ensures
        has_node(seq![item], node) <==> item.node == node,
        !has_node(seq![], node),
{
    assert(seq![item][0] == item);
}

proof fn lemma_item_wants(
    tcx: TyCtxt,
    strategy: MonoItemCollectionStrategy,
    i: int,
    node: MonoItem,
)
    requires
        tcx.wf(),
        0 <= i < tcx.free_items@.len(),
        item_collectable(tcx, strategy, tcx.entry_fn, tcx.free_items@[i]),
    ensures
        free_item_asks(tcx, strategy, i, node) <==> item_wants(tcx, strategy, i, node),
{
    assert(i < tcx.free_items.len());
    let id = ItemId { index: i as usize };
    let items = item_items(tcx, strategy, tcx.entry_fn, id);
    free_item_asks_by_its_kind(tcx, strategy, id);
    assert(tcx.item_wf(tcx.free_items@[i]));
    if items.len() > 0 {
        lemma_has_only(items[0], node);
    }
    match tcx.free_items@[i] {
        ItemKind::Const(Some(value)) => const_asks_for_what_it_reaches(tcx, value, node),
        ItemKind::Impl(def) => {
            if strategy is Eager {
                lemma_impl_wants(tcx, def, node);
            }
        },
        _ => {
            if items.len() > 0 {
                assert(items =~= seq![items[0]]);
            }
        },
    }
}

proof fn lemma_impl_wants(tcx: TyCtxt, def: ImplDef, node: MonoItem)
    ensures
        has_node(default_impl_items(tcx, def), node) <==> exists|m: int|
            0 <= m < def.provided_methods@.len() && takes_over(
                def,
                #[trigger] def.provided_methods@[m],
            ) && node == MonoItem::Fn(def.provided_methods@[m].instance->0) && can_be_used(
                tcx,
                node,
            ) && generated_here(tcx, node),
{
    let methods = def.provided_methods@;
    let wanted = |method: ProvidedMethod|
        takes_over(def, method) && tcx.instances@[method.instance->0.index as int].instantiable
            && tcx.instances@[method.instance->0.index as int].codegen_locally;
    let items = default_impl_items(tcx, def);
    let kept = methods.filter(wanted);
    impl_adds_what_it_takes_over(tcx, def);
    lemma_filter(methods, wanted);
    if has_node(items, node) {
        let k = choose|k: int| 0 <= k < items.len() && (#[trigger] items[k]).node == node;
        assert(kept.contains(kept[k]));
        let m = methods.index_of(kept[k]);
        assert(methods[m] == kept[k]);
    }
    if exists|m: int|
        0 <= m < methods.len() && takes_over(def, #[trigger] methods[m]) && node == MonoItem::Fn(
            methods[m].instance->0,
        ) && can_be_used(tcx, node) && generated_here(tcx, node) {
        let m = choose|m: int|
            0 <= m < methods.len() && takes_over(def, #[trigger] methods[m]) && node
                == MonoItem::Fn(methods[m].instance->0) && can_be_used(tcx, node)
                && generated_here(tcx, node);
        assert(kept.contains(methods[m]));
        assert(items[kept.index_of(methods[m])].node == node);
    }
}

/// Something is a root where all its predicates hold and a free item, an item of
/// an impl or the entry of the crate is a reason to generate code for it, and
/// nowhere else.
pub proof fn root_has_a_reason(tcx: TyCtxt, strategy: MonoItemCollectionStrategy, node: MonoItem)
    requires
        tcx.wf(),
        collectable(tcx, strategy),
    ensures
        roots(tcx, strategy).contains(node) <==> can_be_used(tcx, node) && {
            ||| exists|i: int|
                0 <= i < tcx.free_items@.len() && #[trigger] item_wants(tcx, strategy, i, node)
            ||| exists|i: int|
                0 <= i < tcx.impl_items@.len() && #[trigger] impl_item_wants(
                    tcx,
                    strategy,
                    i,
                    node,
                )
            ||| entry_wants(tcx, node)
        },
{
    root_is_asked_for(tcx, strategy, node);
    assert forall|i: int| 0 <= i < tcx.free_items@.len() implies (#[trigger] free_item_asks(
        tcx,
        strategy,
        i,
        node,
    ) <==> item_wants(tcx, strategy, i, node)) by {
        assert(item_collectable(tcx, strategy, tcx.entry_fn, tcx.free_items@[i]));
        lemma_item_wants(tcx, strategy, i, node);
    }
    assert forall|i: int| 0 <= i < tcx.impl_items@.len() implies (#[trigger] impl_item_asks(
        tcx,
        strategy,
        i,
        node,
    ) <==> impl_item_wants(tcx, strategy, i, node)) by {
        let items = impl_item_items(strategy, tcx.entry_fn, tcx.impl_items@[i]);
        impl_item_asks_by_its_kind(tcx, strategy, tcx.impl_items@[i]);
        if items.len() > 0 {
            lemma_has_only(items[0], node);
            assert(items =~= seq![items[0]]);
        }
    }
    let entry = entry_items(tcx, tcx.entry_fn);
    entry_asks_by_its_kind(tcx);
    if entry.len() > 0 {
        lemma_has_only(entry[0], node);
        assert(entry =~= seq![entry[0]]);
    }
    if exists|i: int|
        0 <= i < tcx.free_items@.len() && #[trigger] item_wants(tcx, strategy, i, node) {
        let i = choose|i: int|
            0 <= i < tcx.free_items@.len() && #[trigger] item_wants(tcx, strategy, i, node);
        assert(free_item_asks(tcx, strategy, i, node));
    }
    if exists|i: int|
        0 <= i < tcx.impl_items@.len() && #[trigger] impl_item_wants(tcx, strategy, i, node) {
        let i = choose|i: int|
            0 <= i < tcx.impl_items@.len() && #[trigger] impl_item_wants(tcx, strategy, i, node);
        assert(impl_item_asks(tcx, strategy, i, node));
    }
    if exists|i: int| free_item_asks(tcx, strategy, i, node) {
        let i = choose|i: int| free_item_asks(tcx, strategy, i, node);
        assert(item_wants(tcx, strategy, i, node));
    }
    if exists|i: int| impl_item_asks(tcx, strategy, i, node) {
        let i = choose|i: int| impl_item_asks(tcx, strategy, i, node);
        assert(impl_item_wants(tcx, strategy, i, node));
    }
}

/// The free item `item` gives all that is asked of it: a type that is to be
/// dropped has drop glue, a constant reaches no thread-local static, and methods
/// that are taken over and functions that count are known as instances.
pub open spec fn item_is_complete(
    tcx: TyCtxt,
    strategy: MonoItemCollectionStrategy,
    item: ItemKind,
) -> bool {
    match item {
        ItemKind::Enum(adt) | ItemKind::Struct(adt) | ItemKind::Union(adt) => {
            strategy is Eager && adt.generics_empty && !adt.impossible_predicates ==> adt.ty is Some
                && tcx.types@[adt.ty->0.index as int].drop_in_place is Some
        },
        ItemKind::Const(Some(value)) => forall|a: AllocId, b: AllocId|
            names_alloc(value, a) && #[trigger] reaches(tcx, a, b) ==> !is_thread_local(tcx, b),
        ItemKind::Impl(def) => strategy is Eager ==> forall|m: int|
            0 <= m < def.provided_methods@.len() && takes_over(
                def,
                #[trigger] def.provided_methods@[m],
            ) ==> def.provided_methods@[m].instance is Some,
        ItemKind::Fn(def) => function_counts(tcx, strategy, def) ==> def.instance is Some,
        ItemKind::Const(None) => true,
        ItemKind::GlobalAsm(_) => true,
        ItemKind::Static(_) => true,
        ItemKind::Other => true,
    }
}

proof fn lemma_item_is_complete(
    tcx: TyCtxt,
    strategy: MonoItemCollectionStrategy,
    item: ItemKind,
)
    requires
        tcx.wf(),
        tcx.item_wf(item),
    ensures
        item_collectable(tcx, strategy, tcx.entry_fn, item) <==> item_is_complete(
            tcx,
            strategy,
            item,
        ),
{
    match item {
        ItemKind::Const(Some(value)) => const_collectable_unless_thread_local(tcx, value),
        ItemKind::Impl(def) => {
            let methods = def.provided_methods@;
            if def.polarity is Some {
                match def.polarity->0 {
                    ImplPolarity::Positive => {},
                    ImplPolarity::Negative => {},
                    ImplPolarity::Reservation => {},
                }
            }
            assert forall|m: int| 0 <= m < methods.len() implies (takes_over(
                def,
                #[trigger] methods[m],
            ) <==> impl_inherits(def) && inherited(def, methods[m])) by {}
        },
        _ => {},
    }
}

/// The roots can be collected where every free item and every function of an impl
/// gives what is asked of it, and a crate that is entered through `main` has a
/// function that calls it, and nowhere else.
pub proof fn collectable_where_complete(tcx: TyCtxt, strategy: MonoItemCollectionStrategy)
    requires
        tcx.wf(),
    ensures
        collectable(tcx, strategy) <==> {
            &&& forall|i: int|
                0 <= i < tcx.free_items@.len() ==> item_is_complete(
                    tcx,
                    strategy,
                    #[trigger] tcx.free_items@[i],
                )
            &&& forall|i: int|
                0 <= i < tcx.impl_items@.len() ==> match #[trigger] tcx.impl_items@[i] {
                    ImplItemKind::AssocFn(def) => function_counts(tcx, strategy, def)
                        ==> def.instance is Some,
                    ImplItemKind::Other => true,
                }
            &&& tcx.entry_fn is Some && tcx.entry_fn->0.kind is Main ==> tcx.start_fn is Some
        },
{
    assert forall|i: int| 0 <= i < tcx.free_items@.len() implies (item_collectable(
        tcx,
        strategy,
        tcx.entry_fn,
        #[trigger] tcx.free_items@[i],
    ) <==> item_is_complete(tcx, strategy, tcx.free_items@[i])) by {
        assert(tcx.item_wf(tcx.free_items@[i]));
        lemma_item_is_complete(tcx, strategy, tcx.free_items@[i]);
    }
    assert forall|i: int| 0 <= i < tcx.impl_items@.len() implies (impl_item_collectable(
        strategy,
        tcx.entry_fn,
        #[trigger] tcx.impl_items@[i],
    ) <==> match tcx.impl_items@[i] {
        ImplItemKind::AssocFn(def) => function_counts(tcx, strategy, def) ==> def.instance is Some,
        ImplItemKind::Other => true,
    }) by {}
}

/// The lists of a crate are in order where each place that is named is in its
/// list, no instance and no static is there twice, allocations point backwards
/// only, and what is named as a function, a static, drop glue or the body of an
/// intrinsic is that, and nowhere else.
pub proof fn lists_in_order(tcx: TyCtxt)
    ensures
        tcx.wf() <==> {
            let instances = tcx.instances@;
            let statics = tcx.statics@;
            let types = tcx.types@;
            let allocs = tcx.allocs@;
            &&& tcx.start_fn is Some ==> tcx.start_fn->0.index < instances.len()
            &&& tcx.panic_nounwind is Some ==> tcx.panic_nounwind->0.index < instances.len()
                && instances[tcx.panic_nounwind->0.index as int].def is Item
            &&& forall|i: int, j: int|
                0 <= i < j < instances.len() ==> (#[trigger] instances[i]).def != (
                #[trigger] instances[j]).def || instances[i].args != instances[j].args
            &&& forall|i: int, j: int|
                0 <= i < j < statics.len() ==> (#[trigger] statics[i]).def_id != (
                #[trigger] statics[j]).def_id
            &&& forall|i: int|
                0 <= i < types.len() && (#[trigger] types[i]).drop_in_place is Some ==> {
                    let glue = types[i].drop_in_place->0;
                    &&& glue.index < instances.len()
                    &&& instances[glue.index as int].def is DropGlue
                    &&& instances[glue.index as int].def->DropGlue_1 matches Some(ty) ==> ty.index
                        == i
                }
            &&& forall|i: int|
                0 <= i < instances.len() && (#[trigger] instances[i]).intrinsic is Some ==> {
                    let body = instances[i].intrinsic->0.fallback;
                    &&& !(instances[i].def is DropGlue)
                    &&& body.index < instances.len()
                    &&& instances[body.index as int].def == InstanceKind::Item(
                        instances[i].def.def_id(),
                    )
                    &&& instances[body.index as int].args == instances[i].args
                }
            &&& forall|i: int|
                0 <= i < statics.len() ==> (#[trigger] statics[i]).instance.index
                    < instances.len() && instances[statics[i].instance.index as int].def
                    == InstanceKind::Item(statics[i].def_id)
            &&& forall|i: int|
                0 <= i < allocs.len() ==> match #[trigger] allocs[i] {
                    GlobalAlloc::Static(id) => id.index < statics.len(),
                    GlobalAlloc::Function(instance) => instance.index < instances.len(),
                    GlobalAlloc::VTable(memory) => memory.index < i,
                    GlobalAlloc::Memory(ptrs) => forall|k: int|
                        0 <= k < ptrs@.len() ==> (#[trigger] ptrs@[k]).index < i,
                }
            &&& forall|i: int|
                0 <= i < tcx.free_items@.len() ==> match #[trigger] tcx.free_items@[i] {
                    ItemKind::Enum(adt) | ItemKind::Struct(adt) | ItemKind::Union(adt) => {
                        adt.ty matches Some(ty) ==> ty.index < types.len()
                    },
                    ItemKind::Static(id) => id.index < statics.len(),
                    ItemKind::Const(Some(value)) => forall|a: AllocId| #[trigger]
                        names_alloc(value, a) ==> a.index < allocs.len(),
                    ItemKind::Impl(def) => forall|m: int|
                        0 <= m < def.provided_methods@.len() && (
                        #[trigger] def.provided_methods@[m]).instance is Some
                            ==> def.provided_methods@[m].instance->0.index < instances.len(),
                    ItemKind::Fn(def) => function_is_itself(tcx, def),
                    ItemKind::Const(None) => true,
                    ItemKind::GlobalAsm(_) => true,
                    ItemKind::Other => true,
                }
            &&& forall|i: int|
                0 <= i < tcx.impl_items@.len() ==> match #[trigger] tcx.impl_items@[i] {
                    ImplItemKind::AssocFn(def) => function_is_itself(tcx, def),
                    ImplItemKind::Other => true,
                }
        },
{
    let instances = tcx.instances@;
    assert forall|i: int| 0 <= i < tcx.allocs@.len() implies (tcx.alloc_wf(i)
        <==> match #[trigger] tcx.allocs@[i] {
        GlobalAlloc::Static(id) => id.index < tcx.statics@.len(),
        GlobalAlloc::Function(instance) => instance.index < instances.len(),
        GlobalAlloc::VTable(memory) => memory.index < i,
        GlobalAlloc::Memory(ptrs) => forall|k: int|
            0 <= k < ptrs@.len() ==> (#[trigger] ptrs@[k]).index < i,
    }) by {
        if let GlobalAlloc::Memory(ptrs) = tcx.allocs@[i] {
            lemma_allocs_below(tcx, ptrs@, i);
        }
    }
    assert forall|i: int| 0 <= i < tcx.free_items@.len() implies (tcx.item_wf(
        #[trigger] tcx.free_items@[i],
    ) <==> match tcx.free_items@[i] {
        ItemKind::Enum(adt) | ItemKind::Struct(adt) | ItemKind::Union(adt) => {
            adt.ty matches Some(ty) ==> ty.index < tcx.types@.len()
        },
        ItemKind::Static(id) => id.index < tcx.statics@.len(),
        ItemKind::Const(Some(value)) => forall|a: AllocId| #[trigger]
            names_alloc(value, a) ==> a.index < tcx.allocs@.len(),
        ItemKind::Impl(def) => forall|m: int|
            0 <= m < def.provided_methods@.len() && (#[trigger] def.provided_methods@[m]).instance
                is Some ==> def.provided_methods@[m].instance->0.index < instances.len(),
        ItemKind::Fn(def) => function_is_itself(tcx, def),
        ItemKind::Const(None) => true,
        ItemKind::GlobalAsm(_) => true,
        ItemKind::Other => true,
    }) by {
        match tcx.free_items@[i] {
            ItemKind::Const(Some(value)) => lemma_const_in_order(tcx, value),
            _ => {},
        }
    }
    assert forall|i: int| 0 <= i < tcx.types@.len() implies (tcx.type_wf(i) <==> ((
    #[trigger] tcx.types@[i]).drop_in_place is Some ==> {
        let glue = tcx.types@[i].drop_in_place->0;
        &&& glue.index < instances.len()
        &&& instances[glue.index as int].def is DropGlue
        &&& instances[glue.index as int].def->DropGlue_1 matches Some(ty) ==> ty.index == i
    })) by {}
}

/// The instance of the function `def`, where it is known, is in the list and is
/// that function.
pub open spec fn function_is_itself(tcx: TyCtxt, def: FnDef) -> bool {
    def.instance matches Some(instance) ==> instance.index < tcx.instances@.len()
        && tcx.instances@[instance.index as int].def == InstanceKind::Item(
        DefId { krate: 0, index: def.def_id.index },
    )
}

proof fn lemma_allocs_below(tcx: TyCtxt, ids: Seq<AllocId>, bound: int)
    requires
        bound <= tcx.allocs@.len(),
    ensures
        tcx.has_allocs_below(ids, bound) <==> forall|k: int|
            0 <= k < ids.len() ==> (#[trigger] ids[k]).index < bound,
{
    if tcx.has_allocs_below(ids, bound) {
        assert forall|k: int| 0 <= k < ids.len() implies (#[trigger] ids[k]).index < bound by {
            assert(tcx.has_alloc_below(ids[k], bound));
        }
    }
}

/// A constant points to allocations of the list where each that it names is one.
proof fn lemma_const_in_order(tcx: TyCtxt, value: ConstValue)
    ensures
        tcx.const_wf(value) <==> forall|a: AllocId| #[trigger]
            names_alloc(value, a) ==> a.index < tcx.allocs@.len(),
{
    let end = tcx.allocs@.len() as int;
    match value {
        ConstValue::Scalar(Scalar::Ptr(a)) => {
            assert(names_alloc(value, a));
        },
        ConstValue::Indirect { alloc_id: a } => {
            assert(names_alloc(value, a));
        },
        ConstValue::Slice { data } => {
            lemma_allocs_below(tcx, data@, end);
            if tcx.const_wf(value) {
                assert forall|a: AllocId| #[trigger] names_alloc(value, a) implies a.index
                    < tcx.allocs@.len() by {
                    assert(data@[data@.index_of(a)] == a);
                }
            } else {
                let k = choose|k: int| 0 <= k < data@.len() && (#[trigger] data@[k]).index >= end;
                assert(names_alloc(value, data@[k]));
            }
        },
        _ => {},
    }
}

/// An instance of any kind belongs to the definition that it is named with.
pub proof fn each_kind_names_its_definition(def_id: DefId, ty: Ty, slot: usize, flag: bool)
    ensures
        InstanceKind::Item(def_id).def_id() == def_id,
        InstanceKind::Intrinsic(def_id).def_id() == def_id,
        InstanceKind::VTableShim(def_id).def_id() == def_id,
        forall|reason| #[trigger] InstanceKind::ReifyShim(def_id, reason).def_id() == def_id,
        InstanceKind::FnPtrShim(def_id, ty).def_id() == def_id,
        InstanceKind::Virtual(def_id, slot).def_id() == def_id,
        (InstanceKind::ClosureOnceShim { call_once: def_id, caller_tracked: flag }).def_id()
            == def_id,
        (InstanceKind::ConstructCoroutineInClosureShim {
            coroutine_closure_def_id: def_id,
            receiver_by_ref: flag,
        }).def_id() == def_id,
        InstanceKind::ThreadLocalShim(def_id).def_id() == def_id,
        forall|dropped| #[trigger] InstanceKind::DropGlue(def_id, dropped).def_id() == def_id,
        InstanceKind::CloneShim(def_id, ty).def_id() == def_id,
        InstanceKind::FnPtrAddrShim(def_id, ty).def_id() == def_id,
        forall|dropped| #[trigger]
            InstanceKind::AsyncDropGlueCtorShim(def_id, dropped).def_id() == def_id,
{
}

/// A collector that has asked for `items` is as it was but for its output, which
/// has taken in the requests.
pub proof fn collector_changes_only_its_output(
    before: RootCollector,
    after: RootCollector,
    items: Seq<Spanned<MonoItem>>,
)
    requires
        after.asked(before, items),
    ensures
        after.tcx == before.tcx,
        after.strategy == before.strategy,
        after.entry_fn == before.entry_fn,
        after.output@ == extended(before.output@, items),
{
}

} // verus!
