//! The items of a crate that code is generated for whether or not anything uses
//! them.

use crate::collect::all_known;
use crate::collect::collect_const_value;
use crate::collect::const_collectable;
use crate::collect::const_items;
use crate::collect::create_fn_mono_item;
use crate::collect::drop_use_collectable;
use crate::collect::drop_use_items;
use crate::collect::fn_item;
use crate::collect::lemma_const_items_known;
use crate::collect::lemma_instance_use_items_known;
use crate::collect::visit_drop_use;
use crate::def::DefId;
use crate::def::ImplItemId;
use crate::def::ItemId;
use crate::mono::extended;
use crate::mono::has_node;
use crate::mono::lemma_extended_append;
use crate::mono::lemma_extended_nodes;
use crate::mono::lemma_extended_one;
use crate::mono::nodes;
use crate::mono::MonoItem;
use crate::mono::MonoItems;
use crate::span::dummy_sp;
use crate::span::dummy_spanned;
use crate::span::Spanned;
use crate::tcx::AdtDef;
use crate::tcx::EntryFn;
use crate::tcx::EntryFnType;
use crate::tcx::FnDef;
use crate::tcx::ImplDef;
use crate::tcx::ImplItemKind;
use crate::tcx::ImplPolarity;
use crate::tcx::ItemKind;
use crate::tcx::ProvidedMethod;
use crate::tcx::TyCtxt;
use vstd::prelude::*;

verus! {

/// Which items count as roots.
#[derive(Clone, Copy, PartialEq, Eq, Structural, Debug, Hash)]
pub enum MonoItemCollectionStrategy {
    /// Everything that is not generic.
    Eager,
    /// What the program is entered through, and what other crates can reach.
    Lazy,
}

/// A struct, enum or union can be dropped without anything being known of
/// generic arguments, and values of it can exist.
#[verifier::allow_in_spec]
pub fn may_be_dropped(generics_empty: bool, impossible_predicates: bool) -> bool
    returns
        generics_empty && !impossible_predicates,
{
    generics_empty && !impossible_predicates
}

/// An impl can have methods that it takes over from its trait, and lifetimes are
/// the only parameters that have to be erased to write them down.
#[verifier::allow_in_spec]
pub fn may_inherit_methods(
    polarity: Option<ImplPolarity>,
    own_requires_monomorphization: bool,
) -> bool
    returns
        polarity is Some && polarity != Some(ImplPolarity::Negative)
            && !own_requires_monomorphization,
{
    match polarity {
        Some(ImplPolarity::Negative) => false,
        Some(_) => !own_requires_monomorphization,
        None => false,
    }
}

/// Methods that an impl takes over from its trait are asked for.
pub open spec fn impl_inherits(def: ImplDef) -> bool {
    may_inherit_methods(def.polarity, def.own_requires_monomorphization)
        && !def.impossible_predicates
}

/// The impl takes `method` over from its trait, and it is not generic.
pub open spec fn inherited(def: ImplDef, method: ProvidedMethod) -> bool {
    !def.overridden_methods@.contains(method.def_id) && !method.own_requires_monomorphization
}

/// What `method` asks for in the impl `def`.
pub open spec fn provided_method_items(tcx: TyCtxt, def: ImplDef, method: ProvidedMethod) -> Seq<
    Spanned<MonoItem>,
> {
    let instance = method.instance->0;
    if inherited(def, method) && tcx.instantiable(MonoItem::Fn(instance)) && tcx.codegen_locally(
        instance,
    ) {
        seq![fn_item(instance, dummy_sp())]
    } else {
        seq![]
    }
}

/// What `methods` ask for in the impl `def`, one after the other.
pub open spec fn provided_methods_items(
    tcx: TyCtxt,
    def: ImplDef,
    methods: Seq<ProvidedMethod>,
) -> Seq<Spanned<MonoItem>>
    decreases methods.len(),
{
    if methods.len() == 0 {
        seq![]
    } else {
        provided_methods_items(tcx, def, methods.drop_last()) + provided_method_items(
            tcx,
            def,
            methods.last(),
        )
    }
}

/// What an impl asks for when everything is to be generated: the methods that it
/// takes over from its trait, in the order of the trait.
pub open spec fn default_impl_items(tcx: TyCtxt, def: ImplDef) -> Seq<Spanned<MonoItem>> {
    if impl_inherits(def) {
        provided_methods_items(tcx, def, def.provided_methods@)
    } else {
        seq![]
    }
}

/// The methods that an impl takes over are known as instances.
pub open spec fn default_impl_collectable(def: ImplDef) -> bool {
    impl_inherits(def) ==> forall|i: int|
        0 <= i < def.provided_methods@.len() && inherited(
            def,
            #[trigger] def.provided_methods@[i],
        ) ==> def.provided_methods@[i].instance is Some
}

/// Whether `def_id` is one of `def_ids`.
pub(crate) fn contains_def_id(def_ids: &Vec<DefId>, def_id: DefId) -> (res: bool)
    ensures
        res == def_ids@.contains(def_id),
{
    let mut i: usize = 0;
    while i < def_ids.len()
        invariant
            i <= def_ids.len(),
            forall|j: int| 0 <= j < i ==> def_ids@[j] != def_id,
        decreases def_ids.len() - i,
    {
        if def_ids[i] == def_id {
            return true;
        }
        i += 1;
    }
    false
}

/// Asks for the methods that the impl `def` takes over from its trait.
pub fn create_mono_items_for_default_impls(tcx: &TyCtxt, def: &ImplDef, output: &mut MonoItems)
    requires
        tcx.wf(),
        tcx.impl_wf(*def),
        default_impl_collectable(*def),
        old(output).inv(),
    ensures
        final(output).inv(),
        final(output)@ == extended(old(output)@, default_impl_items(*tcx, *def)),
{
    let ghost start = output@;
    proof {
        lemma_extended_one(start);
    }
    // Lifetimes never affect which impl is meant, so a method can be written down without being
    // used if the impl and the method have no other parameters.
    if !may_inherit_methods(def.polarity, def.own_requires_monomorphization) {
        return;
    }
    // That the impl has no type or const parameters does not mean that its predicates can hold:
    // `for<'a> &'a mut [u8]: Copy` is not trivially false.
    if def.impossible_predicates {
        return;
    }
    let mut i: usize = 0;
    while i < def.provided_methods.len()
        invariant
            tcx.wf(),
            tcx.impl_wf(*def),
            impl_inherits(*def),
            default_impl_collectable(*def),
            i <= def.provided_methods.len(),
            output.inv(),
            output@ == extended(
                start,
                provided_methods_items(*tcx, *def, def.provided_methods@.take(i as int)),
            ),
        decreases def.provided_methods.len() - i,
    {
        let method = def.provided_methods[i];
        proof {
            let next = def.provided_methods@.take(i + 1);
            assert(next.drop_last() =~= def.provided_methods@.take(i as int));
            assert(next.last() == method);
            lemma_extended_append(
                start,
                provided_methods_items(*tcx, *def, def.provided_methods@.take(i as int)),
                provided_method_items(*tcx, *def, method),
            );
            lemma_extended_one(output@);
            assert(tcx.has_opt_instance(def.provided_methods@[i as int].instance));
        }
        i += 1;
        if contains_def_id(&def.overridden_methods, method.def_id) {
            continue;
        }
        if method.own_requires_monomorphization {
            continue;
        }
        assert(inherited(*def, def.provided_methods@[i - 1]));
        let instance = method.instance.unwrap();
        let mono_item = create_fn_mono_item(instance, dummy_sp());
        if tcx.is_instantiable(mono_item.node) && tcx.should_codegen_locally(instance) {
            output.push(mono_item);
        }
    }
    assert(def.provided_methods@.take(i as int) =~= def.provided_methods@);
}

/// The function `def` counts as a root in a crate that is entered through
/// `entry_fn`.
pub open spec fn fn_is_root(
    strategy: MonoItemCollectionStrategy,
    entry_fn: Option<EntryFn>,
    def: FnDef,
) -> bool {
    &&& !def.requires_monomorphization
    &&& match strategy {
        MonoItemCollectionStrategy::Eager => true,
        MonoItemCollectionStrategy::Lazy => {
            ||| entry_fn is Some && entry_fn->0.def_id == def.def_id.to_def_id()
            ||| def.reachable_non_generic
            ||| def.rustc_std_internal_symbol
        },
    }
}

/// Whether the function `def` counts as a root in a crate that is entered
/// through `entry_fn`.
pub fn is_fn_root(
    strategy: MonoItemCollectionStrategy,
    entry_fn: Option<EntryFn>,
    def: FnDef,
) -> (res: bool)
    ensures
        res == fn_is_root(strategy, entry_fn, def),
{
    let is_entry = match entry_fn {
        Some(entry) => match entry.def_id.as_local() {
            Some(local) => local == def.def_id,
            None => false,
        },
        None => false,
    };
    !def.requires_monomorphization && match strategy {
        MonoItemCollectionStrategy::Eager => true,
        MonoItemCollectionStrategy::Lazy => {
            is_entry || def.reachable_non_generic || def.rustc_std_internal_symbol
        },
    }
}

/// What the function `def` asks for.
pub open spec fn fn_items(
    strategy: MonoItemCollectionStrategy,
    entry_fn: Option<EntryFn>,
    def: FnDef,
) -> Seq<Spanned<MonoItem>> {
    if fn_is_root(strategy, entry_fn, def) {
        seq![fn_item(def.instance->0, dummy_sp())]
    } else {
        seq![]
    }
}

/// A root is known as an instance.
pub open spec fn fn_collectable(
    strategy: MonoItemCollectionStrategy,
    entry_fn: Option<EntryFn>,
    def: FnDef,
) -> bool {
    fn_is_root(strategy, entry_fn, def) ==> def.instance is Some
}

/// A struct, enum or union whose drop is asked for: it is not generic, and
/// values of it can exist.
pub open spec fn adt_is_root(strategy: MonoItemCollectionStrategy, adt: AdtDef) -> bool {
    strategy == MonoItemCollectionStrategy::Eager && may_be_dropped(
        adt.generics_empty,
        adt.impossible_predicates,
    )
}

/// What the free item `id` asks for.
pub open spec fn item_items(
    tcx: TyCtxt,
    strategy: MonoItemCollectionStrategy,
    entry_fn: Option<EntryFn>,
    id: ItemId,
) -> Seq<Spanned<MonoItem>> {
    match tcx.free_items@[id.index as int] {
        ItemKind::Enum(adt) | ItemKind::Struct(adt) | ItemKind::Union(adt) => {
            if adt_is_root(strategy, adt) {
                drop_use_items(tcx, adt.ty->0, true, dummy_sp())
            } else {
                seq![]
            }
        },
        ItemKind::GlobalAsm(_) => {
            seq![Spanned { node: MonoItem::GlobalAsm(id), span: dummy_sp() }]
        },
        ItemKind::Static(static_id) => {
            seq![Spanned { node: MonoItem::Static(static_id), span: dummy_sp() }]
        },
        ItemKind::Const(Some(value)) => const_items(tcx, value),
        ItemKind::Impl(def) => {
            if strategy == MonoItemCollectionStrategy::Eager {
                default_impl_items(tcx, def)
            } else {
                seq![]
            }
        },
        ItemKind::Fn(def) => fn_items(strategy, entry_fn, def),
        _ => seq![],
    }
}

/// The facts are known that the free item `item` depends on.
pub open spec fn item_collectable(
    tcx: TyCtxt,
    strategy: MonoItemCollectionStrategy,
    entry_fn: Option<EntryFn>,
    item: ItemKind,
) -> bool {
    match item {
        ItemKind::Enum(adt) | ItemKind::Struct(adt) | ItemKind::Union(adt) => {
            adt_is_root(strategy, adt) ==> adt.ty is Some && drop_use_collectable(tcx, adt.ty->0)
        },
        ItemKind::Const(Some(value)) => const_collectable(tcx, value),
        ItemKind::Impl(def) => {
            strategy == MonoItemCollectionStrategy::Eager ==> default_impl_collectable(def)
        },
        ItemKind::Fn(def) => fn_collectable(strategy, entry_fn, def),
        _ => true,
    }
}

/// What the item `item` of an impl asks for.
pub open spec fn impl_item_items(
    strategy: MonoItemCollectionStrategy,
    entry_fn: Option<EntryFn>,
    item: ImplItemKind,
) -> Seq<Spanned<MonoItem>> {
    match item {
        ImplItemKind::AssocFn(def) => fn_items(strategy, entry_fn, def),
        ImplItemKind::Other => seq![],
    }
}

/// The facts are known that the item `item` of an impl depends on.
pub open spec fn impl_item_collectable(
    strategy: MonoItemCollectionStrategy,
    entry_fn: Option<EntryFn>,
    item: ImplItemKind,
) -> bool {
    item is AssocFn ==> fn_collectable(strategy, entry_fn, item->AssocFn_0)
}

/// The crate is entered through `main`.
pub open spec fn has_main(entry_fn: Option<EntryFn>) -> bool {
    entry_fn is Some && entry_fn->0.kind is Main
}

/// What the entry of a program asks for besides the entry itself: the function
/// that calls `main`.
pub open spec fn entry_items(tcx: TyCtxt, entry_fn: Option<EntryFn>) -> Seq<Spanned<MonoItem>> {
    if has_main(entry_fn) {
        seq![fn_item(tcx.start_fn->0, dummy_sp())]
    } else {
        seq![]
    }
}

/// Goes through the items of a crate and gathers its roots.
pub struct RootCollector<'a> {
    pub tcx: &'a TyCtxt,
    pub strategy: MonoItemCollectionStrategy,
    pub output: MonoItems,
    pub entry_fn: Option<EntryFn>,
}

impl<'a> RootCollector<'a> {
    /// The collector is in order.
    pub open spec fn inv(self) -> bool {
        self.tcx.wf() && self.output.inv()
    }

    /// `self` is `before` with nothing but the output changed: `items` were
    /// asked for.
    pub open spec fn asked(self, before: RootCollector, items: Seq<Spanned<MonoItem>>) -> bool {
        &&& self.inv()
        &&& self.tcx == before.tcx
        &&& self.strategy == before.strategy
        &&& self.entry_fn == before.entry_fn
        &&& self.output@ == extended(before.output@, items)
    }

    /// Asks for what the free item `id` needs.
    pub fn process_item(&mut self, id: ItemId)
        requires
            old(self).inv(),
            id.index < old(self).tcx.free_items@.len(),
            item_collectable(
                *old(self).tcx,
                old(self).strategy,
                old(self).entry_fn,
                old(self).tcx.free_items@[id.index as int],
            ),
        ensures
            final(self).asked(
                *old(self),
                item_items(*old(self).tcx, old(self).strategy, old(self).entry_fn, id),
            ),
    {
        let tcx = self.tcx;
        proof {
            lemma_extended_one(self.output@);
            assert(tcx.item_wf(tcx.free_items@[id.index as int]));
        }
        match &tcx.free_items[id.index] {
            ItemKind::Enum(adt) | ItemKind::Struct(adt) | ItemKind::Union(adt) => {
                if self.strategy == MonoItemCollectionStrategy::Eager && adt.generics_empty {
                    // This type is impossible to instantiate, so we should not try to
                    // generate a `drop_in_place` instance for it.
                    if adt.impossible_predicates {
                        return;
                    }
                    let ty = adt.ty.unwrap();
                    visit_drop_use(tcx, ty, true, dummy_sp(), &mut self.output);
                }
            },
            ItemKind::GlobalAsm(_) => {
                self.output.push(dummy_spanned(MonoItem::GlobalAsm(id)));
            },
            ItemKind::Static(static_id) => {
                self.output.push(dummy_spanned(MonoItem::Static(*static_id)));
            },
            ItemKind::Const(value) => {
                // Constants only need code if they are actually used somewhere. Just declaring
                // them is insufficient.
                // But even just declaring them must collect the items they refer to.
                if let Some(value) = value {
                    collect_const_value(tcx, value, &mut self.output);
                }
            },
            ItemKind::Impl(def) => {
                if self.strategy == MonoItemCollectionStrategy::Eager {
                    create_mono_items_for_default_impls(tcx, def, &mut self.output);
                }
            },
            ItemKind::Fn(def) => {
                self.push_if_root(*def);
            },
            ItemKind::Other => {},
        }
    }

    /// Asks for what the item `id` of an impl needs.
    pub fn process_impl_item(&mut self, id: ImplItemId)
        requires
            old(self).inv(),
            id.index < old(self).tcx.impl_items@.len(),
            impl_item_collectable(
                old(self).strategy,
                old(self).entry_fn,
                old(self).tcx.impl_items@[id.index as int],
            ),
        ensures
            final(self).asked(
                *old(self),
                impl_item_items(
                    old(self).strategy,
                    old(self).entry_fn,
                    old(self).tcx.impl_items@[id.index as int],
                ),
            ),
    {
        let tcx = self.tcx;
        proof {
            lemma_extended_one(self.output@);
            assert(tcx.impl_item_wf(tcx.impl_items@[id.index as int]));
        }
        if let ImplItemKind::AssocFn(def) = tcx.impl_items[id.index] {
            self.push_if_root(def);
        }
    }

    /// Whether the function `def` is a root.
    pub fn is_root(&self, def: FnDef) -> (res: bool)
        ensures
            res == fn_is_root(self.strategy, self.entry_fn, def),
    {
        is_fn_root(self.strategy, self.entry_fn, def)
    }

    /// If the function `def` is a root, asks for it. (Note that all roots must be
    /// monomorphic.)
    pub fn push_if_root(&mut self, def: FnDef)
        requires
            old(self).inv(),
            old(self).tcx.fn_wf(def),
            fn_collectable(old(self).strategy, old(self).entry_fn, def),
        ensures
            final(self).asked(*old(self), fn_items(old(self).strategy, old(self).entry_fn, def)),
    {
        proof {
            lemma_extended_one(self.output@);
        }
        if self.is_root(def) {
            let instance = def.instance.unwrap();
            self.output.push(create_fn_mono_item(instance, dummy_sp()));
        }
    }

    /// As a special case, where the crate has a `main` function, we also have to
    /// generate the start function for the return type of `main`.
    pub fn push_extra_entry_roots(&mut self)
        requires
            old(self).inv(),
            has_main(old(self).entry_fn) ==> old(self).tcx.start_fn is Some,
        ensures
            final(self).asked(*old(self), entry_items(*old(self).tcx, old(self).entry_fn)),
    {
        proof {
            lemma_extended_one(self.output@);
        }
        if let Some(entry) = self.entry_fn {
            if let EntryFnType::Main { .. } = entry.kind {
                let start_instance = self.tcx.start_fn.unwrap();
                self.output.push(create_fn_mono_item(start_instance, dummy_sp()));
            }
        }
    }
}

/// What the first `n` free items ask for, one after the other.
pub open spec fn free_items_items(
    tcx: TyCtxt,
    strategy: MonoItemCollectionStrategy,
    n: nat,
) -> Seq<Spanned<MonoItem>>
    decreases n,
{
    if n == 0 {
        seq![]
    } else {
        free_items_items(tcx, strategy, (n - 1) as nat) + item_items(
            tcx,
            strategy,
            tcx.entry_fn,
            ItemId { index: (n - 1) as usize },
        )
    }
}

/// What the first `n` items of impls ask for, one after the other.
pub open spec fn impl_items_items(
    tcx: TyCtxt,
    strategy: MonoItemCollectionStrategy,
    n: nat,
) -> Seq<Spanned<MonoItem>>
    decreases n,
{
    if n == 0 {
        seq![]
    } else {
        impl_items_items(tcx, strategy, (n - 1) as nat) + impl_item_items(
            strategy,
            tcx.entry_fn,
            tcx.impl_items@[n - 1],
        )
    }
}

/// What a crate asks for: its free items, then the items of its impls, then its
/// entry.
pub open spec fn crate_items(tcx: TyCtxt, strategy: MonoItemCollectionStrategy) -> Seq<
    Spanned<MonoItem>,
> {
    free_items_items(tcx, strategy, tcx.free_items@.len()) + impl_items_items(
        tcx,
        strategy,
        tcx.impl_items@.len(),
    ) + entry_items(tcx, tcx.entry_fn)
}

/// The roots of a crate: what it asks for, each item once, in the order in which
/// they are first asked for, without those that can never be used because one of
/// their predicates does not hold.
pub open spec fn roots(tcx: TyCtxt, strategy: MonoItemCollectionStrategy) -> Seq<MonoItem> {
    nodes(extended(seq![], crate_items(tcx, strategy))).filter(
        |item: MonoItem| tcx.instantiable(item),
    )
}

/// Every fact is known that the roots of a crate depend on.
pub open spec fn collectable(tcx: TyCtxt, strategy: MonoItemCollectionStrategy) -> bool {
    &&& forall|i: int|
        0 <= i < tcx.free_items@.len() ==> item_collectable(
            tcx,
            strategy,
            tcx.entry_fn,
            #[trigger] tcx.free_items@[i],
        )
    &&& forall|i: int|
        0 <= i < tcx.impl_items@.len() ==> impl_item_collectable(
            strategy,
            tcx.entry_fn,
            #[trigger] tcx.impl_items@[i],
        )
    &&& has_main(tcx.entry_fn) ==> tcx.start_fn is Some
}

/// What methods that an impl takes over ask for is in the lists.
proof fn lemma_provided_methods_items_known(
    tcx: TyCtxt,
    def: ImplDef,
    methods: Seq<ProvidedMethod>,
)
    requires
        tcx.wf(),
        forall|i: int|
            0 <= i < methods.len() && inherited(def, #[trigger] methods[i]) ==> methods[i].instance
                is Some && tcx.has_instance(methods[i].instance->0),
    ensures
        all_known(tcx, provided_methods_items(tcx, def, methods)),
    decreases methods.len(),
{
    if methods.len() > 0 {
        assert forall|i: int|
            0 <= i < methods.drop_last().len() && inherited(
                def,
                #[trigger] methods.drop_last()[i],
            ) implies methods.drop_last()[i].instance is Some && tcx.has_instance(
            methods.drop_last()[i].instance->0,
        ) by {
            assert(methods[i] == methods.drop_last()[i]);
        }
        lemma_provided_methods_items_known(tcx, def, methods.drop_last());
        assert(methods[methods.len() - 1] == methods.last());
    }
}

/// What a free item asks for is in the lists.
proof fn lemma_item_items_known(
    tcx: TyCtxt,
    strategy: MonoItemCollectionStrategy,
    entry_fn: Option<EntryFn>,
    id: ItemId,
)
    requires
        tcx.wf(),
        id.index < tcx.free_items@.len(),
        item_collectable(tcx, strategy, entry_fn, tcx.free_items@[id.index as int]),
    ensures
        all_known(tcx, item_items(tcx, strategy, entry_fn, id)),
{
    assert(tcx.item_wf(tcx.free_items@[id.index as int]));
    match tcx.free_items@[id.index as int] {
        ItemKind::Enum(adt) | ItemKind::Struct(adt) | ItemKind::Union(adt) => {
            if adt_is_root(strategy, adt) {
                lemma_instance_use_items_known(
                    tcx,
                    tcx.types@[adt.ty->0.index as int].drop_in_place->0,
                    true,
                    dummy_sp(),
                );
            }
        },
        ItemKind::Const(Some(value)) => lemma_const_items_known(tcx, value),
        ItemKind::Impl(def) => {
            if strategy == MonoItemCollectionStrategy::Eager && impl_inherits(def) {
                lemma_provided_methods_items_known(tcx, def, def.provided_methods@);
            }
        },
        _ => {},
    }
}

/// What the first `n` free items ask for is in the lists.
proof fn lemma_free_items_items_known(tcx: TyCtxt, strategy: MonoItemCollectionStrategy, n: nat)
    requires
        tcx.wf(),
        collectable(tcx, strategy),
        n <= tcx.free_items@.len(),
    ensures
        all_known(tcx, free_items_items(tcx, strategy, n)),
    decreases n,
{
    if n > 0 {
        lemma_free_items_items_known(tcx, strategy, (n - 1) as nat);
        assert(item_collectable(tcx, strategy, tcx.entry_fn, tcx.free_items@[n - 1]));
        lemma_item_items_known(
            tcx,
            strategy,
            tcx.entry_fn,
            ItemId { index: (n - 1) as usize },
        );
    }
}

/// What the first `n` items of impls ask for is in the lists.
proof fn lemma_impl_items_items_known(tcx: TyCtxt, strategy: MonoItemCollectionStrategy, n: nat)
    requires
        tcx.wf(),
        collectable(tcx, strategy),
        n <= tcx.impl_items@.len(),
    ensures
        all_known(tcx, impl_items_items(tcx, strategy, n)),
    decreases n,
{
    if n > 0 {
        lemma_impl_items_items_known(tcx, strategy, (n - 1) as nat);
        assert(tcx.impl_item_wf(tcx.impl_items@[n - 1]));
        assert(impl_item_collectable(strategy, tcx.entry_fn, tcx.impl_items@[n - 1]));
    }
}

/// Whatever a crate asks for is in its lists.
pub proof fn lemma_crate_items_known(tcx: TyCtxt, strategy: MonoItemCollectionStrategy)
    requires
        tcx.wf(),
        collectable(tcx, strategy),
    ensures
        all_known(tcx, crate_items(tcx, strategy)),
        all_known(tcx, extended(seq![], crate_items(tcx, strategy))),
{
    lemma_free_items_items_known(tcx, strategy, tcx.free_items@.len());
    lemma_impl_items_items_known(tcx, strategy, tcx.impl_items@.len());
    let items = crate_items(tcx, strategy);
    let all = extended(seq![], items);
    lemma_extended_nodes(seq![], items);
    assert forall|i: int| 0 <= i < all.len() implies tcx.has_mono_item(
        (#[trigger] all[i]).node,
    ) by {
        assert(has_node(all, all[i].node));
        assert(!has_node(seq![], all[i].node));
        let j = choose|j: int| 0 <= j < items.len() && (#[trigger] items[j]).node == all[i].node;
        assert(tcx.has_mono_item(items[j].node));
    }
}

/// The roots of the crate `tcx`.
pub fn collect_roots(tcx: &TyCtxt, mode: MonoItemCollectionStrategy) -> (res: Vec<MonoItem>)
    requires
        tcx.wf(),
        collectable(*tcx, mode),
    ensures
        res@ == roots(*tcx, mode),
{
    let mut collector = RootCollector {
        tcx,
        strategy: mode,
        output: MonoItems::new(),
        entry_fn: tcx.entry_fn,
    };
    let ghost none = Seq::<Spanned<MonoItem>>::empty();
    proof {
        lemma_extended_one(none);
    }
    let mut i: usize = 0;
    while i < tcx.free_items.len()
        invariant
            collectable(*tcx, mode),
            i <= tcx.free_items.len(),
            collector.inv(),
            collector.tcx == tcx,
            collector.strategy == mode,
            collector.entry_fn == tcx.entry_fn,
            collector.output@ == extended(none, free_items_items(*tcx, mode, i as nat)),
        decreases tcx.free_items.len() - i,
    {
        let id = ItemId { index: i };
        proof {
            lemma_extended_append(
                none,
                free_items_items(*tcx, mode, i as nat),
                item_items(*tcx, mode, tcx.entry_fn, id),
            );
            assert(item_collectable(*tcx, mode, tcx.entry_fn, tcx.free_items@[i as int]));
        }
        collector.process_item(id);
        i += 1;
    }
    let ghost free = free_items_items(*tcx, mode, tcx.free_items@.len());
    let mut j: usize = 0;
    proof {
        assert(free + impl_items_items(*tcx, mode, 0) =~= free);
    }
    while j < tcx.impl_items.len()
        invariant
            collectable(*tcx, mode),
            j <= tcx.impl_items.len(),
            collector.inv(),
            collector.tcx == tcx,
            collector.strategy == mode,
            collector.entry_fn == tcx.entry_fn,
            collector.output@ == extended(none, free + impl_items_items(*tcx, mode, j as nat)),
        decreases tcx.impl_items.len() - j,
    {
        proof {
            let seen = impl_items_items(*tcx, mode, j as nat);
            let next = impl_item_items(mode, tcx.entry_fn, tcx.impl_items@[j as int]);
            lemma_extended_append(none, free + seen, next);
            assert(free + seen + next =~= free + (seen + next));
            assert(impl_item_collectable(mode, tcx.entry_fn, tcx.impl_items@[j as int]));
        }
        collector.process_impl_item(ImplItemId { index: j });
        j += 1;
    }
    proof {
        lemma_extended_append(
            none,
            free + impl_items_items(*tcx, mode, tcx.impl_items@.len()),
            entry_items(*tcx, tcx.entry_fn),
        );
    }
    collector.push_extra_entry_roots();
    // We can only generate code for items that are instantiable - items all of whose predicates
    // hold. Luckily, items that aren't instantiable can't actually be used, so we can just skip
    // them.
    let ghost all = collector.output@;
    let ghost wanted = |item: MonoItem| tcx.instantiable(item);
    proof {
        lemma_crate_items_known(*tcx, mode);
    }
    let asked = collector.output.into_iter();
    let mut roots: Vec<MonoItem> = Vec::new();
    let mut k: usize = 0;
    while k < asked.len()
        invariant
            k <= asked.len(),
            asked@ == all,
            all_known(*tcx, all),
            wanted == (|item: MonoItem| tcx.instantiable(item)),
            roots@ == nodes(all).take(k as int).filter(wanted),
        decreases asked.len() - k,
    {
        let item = asked[k].node;
        proof {
            let next = nodes(all).take(k + 1);
            assert(next.drop_last() =~= nodes(all).take(k as int));
            assert(next.last() == item);
            reveal_with_fuel(Seq::filter, 2);
            assert(tcx.has_mono_item(all[k as int].node));
        }
        if tcx.is_instantiable(item) {
            roots.push(item);
        }
        k += 1;
    }
    assert(nodes(all).take(k as int) =~= nodes(all));
    roots
}

} // verus!
