//! Tests of whether a [`TyCtxt`] is in order, and whether its roots can be
//! collected.

use crate::collect::alloc_collectable;
use crate::collect::all_allocs_collectable;
use crate::collect::const_collectable;
use crate::collect::drop_use_collectable;
use crate::def::AllocId;
use crate::def::DefId;
use crate::def::Instance;
use crate::roots::adt_is_root;
use crate::roots::collectable;
use crate::roots::contains_def_id;
use crate::roots::default_impl_collectable;
use crate::roots::fn_collectable;
use crate::roots::impl_inherits;
use crate::roots::impl_item_collectable;
use crate::roots::inherited;
use crate::roots::is_fn_root;
use crate::roots::item_collectable;
use crate::roots::may_inherit_methods;
use crate::roots::MonoItemCollectionStrategy;
use crate::tcx::AdtDef;
use crate::tcx::ConstValue;
use crate::tcx::EntryFn;
use crate::tcx::EntryFnType;
use crate::tcx::FnDef;
use crate::tcx::GlobalAlloc;
use crate::tcx::ImplDef;
use crate::tcx::ImplItemKind;
use crate::tcx::InstanceData;
use crate::tcx::InstanceKind;
use crate::tcx::ItemKind;
use crate::tcx::Scalar;
use crate::tcx::TyCtxt;
use vstd::prelude::*;

verus! {

impl TyCtxt {
    /// Whether `instance`, where there is one, is in the list.
    fn check_opt_instance(&self, instance: Option<Instance>) -> (res: bool)
        ensures
            res == self.has_opt_instance(instance),
    {
        match instance {
            Some(instance) => instance.index < self.instances.len(),
            None => true,
        }
    }

    /// Whether `instance` is the written function or static `def_id`.
    fn check_written(&self, instance: Instance, def_id: DefId) -> (res: bool)
        ensures
            res == self.is_written(instance, def_id),
    {
        instance.index < self.instances.len() && self.instances[instance.index].def
            == InstanceKind::Item(def_id)
    }

    /// Whether a function's instance is that function.
    fn check_fn_instance(&self, def: FnDef) -> (res: bool)
        ensures
            res == self.fn_wf(def),
    {
        match def.instance {
            Some(instance) => self.check_written(instance, def.def_id.to_def_id()),
            None => true,
        }
    }

    /// Whether the function that panics without unwinding is a written one.
    fn check_panic(&self) -> (res: bool)
        ensures
            res == self.panic_wf(),
    {
        match self.panic_nounwind {
            Some(instance) => instance.index < self.instances.len()
                && match self.instances[instance.index].def {
                InstanceKind::Item(_) => true,
                _ => false,
            },
            None => true,
        }
    }

    /// Whether what drops a value of the type at place `i` is its drop glue.
    fn check_type(&self, i: usize) -> (res: bool)
        requires
            i < self.types@.len(),
        ensures
            res == self.type_wf(i as int),
    {
        match self.types[i].drop_in_place {
            Some(glue) => glue.index < self.instances.len()
                && match self.instances[glue.index].def {
                InstanceKind::DropGlue(_, Some(ty)) => ty.index == i,
                InstanceKind::DropGlue(_, None) => true,
                _ => false,
            },
            None => true,
        }
    }

    /// Whether all of `ids` come before the place `bound`.
    fn check_allocs_below(&self, ids: &Vec<AllocId>, bound: usize) -> (res: bool)
        requires
            bound <= self.allocs@.len(),
        ensures
            res == self.has_allocs_below(ids@, bound as int),
    {
        let mut i: usize = 0;
        while i < ids.len()
            invariant
                bound <= self.allocs@.len(),
                i <= ids.len(),
                forall|j: int|
                    0 <= j < i ==> self.has_alloc_below(#[trigger] ids@[j], bound as int),
            decreases ids.len() - i,
        {
            if ids[i].index >= bound {
                assert(!self.has_alloc_below(ids@[i as int], bound as int));
                return false;
            }
            i += 1;
        }
        true
    }

    /// Whether the body that an intrinsic falls back on is the right one, and
    /// drop glue is no intrinsic.
    fn check_instance(&self, data: InstanceData) -> (res: bool)
        ensures
            res == self.instance_wf(data),
    {
        match data.intrinsic {
            Some(intrinsic) => {
                let is_glue = match data.def {
                    InstanceKind::DropGlue(..) => true,
                    _ => false,
                };
                let fallback = intrinsic.fallback;
                !is_glue && self.check_written(fallback, data.def.def_id())
                    && self.instances[fallback.index].args == data.args
            },
            None => true,
        }
    }

    /// Whether the allocation at place `i` points backwards only.
    fn check_alloc(&self, i: usize) -> (res: bool)
        requires
            i < self.allocs@.len(),
        ensures
            res == self.alloc_wf(i as int),
    {
        match &self.allocs[i] {
            GlobalAlloc::Static(id) => id.index < self.statics.len(),
            GlobalAlloc::Memory(ptrs) => self.check_allocs_below(ptrs, i),
            GlobalAlloc::Function(instance) => instance.index < self.instances.len(),
            GlobalAlloc::VTable(alloc_id) => alloc_id.index < i,
        }
    }

    /// Whether a constant points into the list.
    fn check_const(&self, value: &ConstValue) -> (res: bool)
        ensures
            res == self.const_wf(*value),
    {
        match value {
            ConstValue::Scalar(Scalar::Ptr(alloc_id)) => alloc_id.index < self.allocs.len(),
            ConstValue::Slice { data } => self.check_allocs_below(data, self.allocs.len()),
            ConstValue::Indirect { alloc_id } => alloc_id.index < self.allocs.len(),
            _ => true,
        }
    }

    /// Whether the methods of an impl are in the list.
    fn check_impl(&self, def: &ImplDef) -> (res: bool)
        ensures
            res == self.impl_wf(*def),
    {
        let mut i: usize = 0;
        while i < def.provided_methods.len()
            invariant
                i <= def.provided_methods.len(),
                forall|j: int|
                    0 <= j < i ==> self.has_opt_instance(
                        (#[trigger] def.provided_methods@[j]).instance,
                    ),
            decreases def.provided_methods.len() - i,
        {
            if !self.check_opt_instance(def.provided_methods[i].instance) {
                assert(!self.has_opt_instance(def.provided_methods@[i as int].instance));
                return false;
            }
            i += 1;
        }
        true
    }

    /// Whether what a free item names is in the lists.
    fn check_item(&self, item: &ItemKind) -> (res: bool)
        ensures
            res == self.item_wf(*item),
    {
        match item {
            ItemKind::Enum(adt) | ItemKind::Struct(adt) | ItemKind::Union(adt) => match adt.ty {
                Some(ty) => ty.index < self.types.len(),
                None => true,
            },
            ItemKind::Static(id) => id.index < self.statics.len(),
            ItemKind::Const(Some(value)) => self.check_const(value),
            ItemKind::Impl(def) => self.check_impl(def),
            ItemKind::Fn(def) => self.check_fn_instance(*def),
            _ => true,
        }
    }

    /// Whether no instance is there twice.
    fn check_instances_distinct(&self) -> (res: bool)
        ensures
            res == self.instances_distinct(),
    {
        let mut j: usize = 0;
        while j < self.instances.len()
            invariant
                j <= self.instances.len(),
                forall|a: int, b: int|
                    0 <= a < b < j ==> !((#[trigger] self.instances@[a]).def == (
                    #[trigger] self.instances@[b]).def && self.instances@[a].args
                        == self.instances@[b].args),
            decreases self.instances.len() - j,
        {
            let mut i: usize = 0;
            while i < j
                invariant
                    i <= j < self.instances.len(),
                    forall|a: int|
                        0 <= a < i ==> !((#[trigger] self.instances@[a]).def
                            == self.instances@[j as int].def && self.instances@[a].args
                            == self.instances@[j as int].args),
                decreases j - i,
            {
                if self.instances[i].args == self.instances[j].args && self.instances[i].def
                    == self.instances[j].def {
                    return false;
                }
                i += 1;
            }
            j += 1;
        }
        true
    }

    /// Whether no static is there twice.
    fn check_statics_distinct(&self) -> (res: bool)
        ensures
            res == self.statics_distinct(),
    {
        let mut j: usize = 0;
        while j < self.statics.len()
            invariant
                j <= self.statics.len(),
                forall|a: int, b: int|
                    0 <= a < b < j ==> (#[trigger] self.statics@[a]).def_id != (
                    #[trigger] self.statics@[b]).def_id,
            decreases self.statics.len() - j,
        {
            let mut i: usize = 0;
            while i < j
                invariant
                    i <= j < self.statics.len(),
                    forall|a: int|
                        0 <= a < i ==> (#[trigger] self.statics@[a]).def_id
                            != self.statics@[j as int].def_id,
                decreases j - i,
            {
                if self.statics[i].def_id == self.statics[j].def_id {
                    return false;
                }
                i += 1;
            }
            j += 1;
        }
        true
    }

    /// Whether what drops a value of any type is its drop glue.
    fn check_types(&self) -> (res: bool)
        ensures
            res == (forall|i: int|
                #![trigger self.types@[i]]
                0 <= i < self.types@.len() ==> self.type_wf(i)),
    {
        let mut i: usize = 0;
        while i < self.types.len()
            invariant
                i <= self.types.len(),
                forall|j: int| #![trigger self.types@[j]] 0 <= j < i ==> self.type_wf(j),
            decreases self.types.len() - i,
        {
            if !self.check_type(i) {
                assert(!self.type_wf(i as int));
                return false;
            }
            i += 1;
        }
        true
    }

    /// Whether all intrinsics fall back on the right body.
    fn check_instances(&self) -> (res: bool)
        ensures
            res == (forall|i: int|
                0 <= i < self.instances@.len() ==> self.instance_wf(#[trigger] self.instances@[i])),
    {
        let mut i: usize = 0;
        while i < self.instances.len()
            invariant
                i <= self.instances.len(),
                forall|j: int| 0 <= j < i ==> self.instance_wf(#[trigger] self.instances@[j]),
            decreases self.instances.len() - i,
        {
            if !self.check_instance(self.instances[i]) {
                assert(!self.instance_wf(self.instances@[i as int]));
                return false;
            }
            i += 1;
        }
        true
    }

    /// Whether the instance of each static is that static.
    fn check_statics(&self) -> (res: bool)
        ensures
            res == (forall|i: int|
                0 <= i < self.statics@.len() ==> self.is_written(
                    (#[trigger] self.statics@[i]).instance,
                    self.statics@[i].def_id,
                )),
    {
        let mut i: usize = 0;
        while i < self.statics.len()
            invariant
                i <= self.statics.len(),
                forall|j: int|
                    0 <= j < i ==> self.is_written(
                        (#[trigger] self.statics@[j]).instance,
                        self.statics@[j].def_id,
                    ),
            decreases self.statics.len() - i,
        {
            if !self.check_written(self.statics[i].instance, self.statics[i].def_id) {
                assert(!self.is_written(
                    self.statics@[i as int].instance,
                    self.statics@[i as int].def_id,
                ));
                return false;
            }
            i += 1;
        }
        true
    }

    /// Whether all allocations point backwards only.
    fn check_allocs(&self) -> (res: bool)
        ensures
            res == (forall|i: int|
                #![trigger self.allocs@[i]]
                0 <= i < self.allocs@.len() ==> self.alloc_wf(i)),
    {
        let mut i: usize = 0;
        while i < self.allocs.len()
            invariant
                i <= self.allocs.len(),
                forall|j: int| #![trigger self.allocs@[j]] 0 <= j < i ==> self.alloc_wf(j),
            decreases self.allocs.len() - i,
        {
            if !self.check_alloc(i) {
                assert(!self.alloc_wf(i as int));
                return false;
            }
            i += 1;
        }
        true
    }

    /// Whether what the free items name is in the lists.
    fn check_free_items(&self) -> (res: bool)
        ensures
            res == (forall|i: int|
                0 <= i < self.free_items@.len() ==> self.item_wf(#[trigger] self.free_items@[i])),
    {
        let mut i: usize = 0;
        while i < self.free_items.len()
            invariant
                i <= self.free_items.len(),
                forall|j: int| 0 <= j < i ==> self.item_wf(#[trigger] self.free_items@[j]),
            decreases self.free_items.len() - i,
        {
            if !self.check_item(&self.free_items[i]) {
                assert(!self.item_wf(self.free_items@[i as int]));
                return false;
            }
            i += 1;
        }
        true
    }

    /// Whether what the items of impls name is in the lists.
    fn check_impl_items(&self) -> (res: bool)
        ensures
            res == (forall|i: int|
                0 <= i < self.impl_items@.len() ==> self.impl_item_wf(
                    #[trigger] self.impl_items@[i],
                )),
    {
        let mut i: usize = 0;
        while i < self.impl_items.len()
            invariant
                i <= self.impl_items.len(),
                forall|j: int| 0 <= j < i ==> self.impl_item_wf(#[trigger] self.impl_items@[j]),
            decreases self.impl_items.len() - i,
        {
            if let ImplItemKind::AssocFn(def) = self.impl_items[i] {
                if !self.check_fn_instance(def) {
                    assert(!self.impl_item_wf(self.impl_items@[i as int]));
                    return false;
                }
            }
            i += 1;
        }
        true
    }

    /// Whether all that is named is in the lists, under one name only, and is what
    /// it is named as.
    pub fn is_wf(&self) -> (res: bool)
        ensures
            res == self.wf(),
    {
        self.check_opt_instance(self.start_fn) && self.check_panic()
            && self.check_instances_distinct() && self.check_statics_distinct()
            && self.check_types() && self.check_instances() && self.check_statics()
            && self.check_allocs() && self.check_free_items() && self.check_impl_items()
    }
}

/// Of each allocation, whether it can be collected.
fn collectable_allocs(tcx: &TyCtxt) -> (res: Vec<bool>)
    requires
        tcx.wf(),
    ensures
        res@.len() == tcx.allocs@.len(),
        forall|id: AllocId|
            id.index < tcx.allocs@.len() ==> res@[id.index as int] == #[trigger] alloc_collectable(
                *tcx,
                id,
            ),
{
    let mut res: Vec<bool> = Vec::new();
    let mut i: usize = 0;
    while i < tcx.allocs.len()
        invariant
            tcx.wf(),
            i <= tcx.allocs.len(),
            res@.len() == i,
            forall|id: AllocId|
                id.index < i ==> res@[id.index as int] == #[trigger] alloc_collectable(*tcx, id),
        decreases tcx.allocs.len() - i,
    {
        let ghost done = res@;
        let ghost this = AllocId { index: i };
        assert(tcx.alloc_wf(i as int));
        let ok = match &tcx.allocs[i] {
            GlobalAlloc::Static(id) => !tcx.statics[id.index].thread_local,
            GlobalAlloc::Memory(ptrs) => all_listed(tcx, ptrs, i, &res),
            GlobalAlloc::Function(_) => true,
            GlobalAlloc::VTable(memory) => {
                assert(res@[memory.index as int] == alloc_collectable(*tcx, *memory));
                res[memory.index]
            },
        };
        assert(ok == alloc_collectable(*tcx, this));
        res.push(ok);
        i += 1;
        assert forall|id: AllocId| id.index < i implies res@[id.index as int]
            == #[trigger] alloc_collectable(*tcx, id) by {
            if id.index == i - 1 {
                assert(id == this);
            } else {
                assert(res@[id.index as int] == done[id.index as int]);
            }
        }
    }
    res
}

/// Whether all of `ids` can be collected, going by `known`.
fn all_listed(tcx: &TyCtxt, ids: &Vec<AllocId>, bound: usize, known: &Vec<bool>) -> (res: bool)
    requires
        tcx.wf(),
        tcx.has_allocs_below(ids@, bound as int),
        bound <= known@.len(),
        forall|id: AllocId|
            id.index < bound ==> known@[id.index as int] == #[trigger] alloc_collectable(*tcx, id),
    ensures
        res == all_allocs_collectable(*tcx, ids@, bound),
{
    let mut i: usize = 0;
    while i < ids.len()
        invariant
            tcx.wf(),
            tcx.has_allocs_below(ids@, bound as int),
            bound <= known@.len(),
            forall|id: AllocId|
                id.index < bound ==> known@[id.index as int] == #[trigger] alloc_collectable(
                    *tcx,
                    id,
                ),
            i <= ids.len(),
            forall|j: int| 0 <= j < i ==> alloc_collectable(*tcx, #[trigger] ids@[j]),
        decreases ids.len() - i,
    {
        assert(tcx.has_alloc_below(ids@[i as int], bound as int));
        if !known[ids[i].index] {
            assert(!alloc_collectable(*tcx, ids@[i as int]));
            return false;
        }
        i += 1;
    }
    true
}

/// Whether a constant can be collected, going by `known`.
fn check_const_collectable(tcx: &TyCtxt, value: &ConstValue, known: &Vec<bool>) -> (res: bool)
    requires
        tcx.wf(),
        tcx.const_wf(*value),
        known@.len() == tcx.allocs@.len(),
        forall|id: AllocId|
            id.index < tcx.allocs@.len() ==> known@[id.index as int]
                == #[trigger] alloc_collectable(*tcx, id),
    ensures
        res == const_collectable(*tcx, *value),
{
    match value {
        ConstValue::Scalar(Scalar::Ptr(alloc_id)) => known[alloc_id.index],
        ConstValue::Indirect { alloc_id } => known[alloc_id.index],
        ConstValue::Slice { data } => all_listed(tcx, data, tcx.allocs.len(), known),
        _ => true,
    }
}

/// Whether what is needed of a struct, enum or union is known.
fn check_adt(tcx: &TyCtxt, mode: MonoItemCollectionStrategy, adt: AdtDef) -> (res: bool)
    requires
        tcx.wf(),
        adt.ty is Some ==> adt.ty->0.index < tcx.types@.len(),
    ensures
        res == (adt_is_root(mode, adt) ==> adt.ty is Some && drop_use_collectable(
            *tcx,
            adt.ty->0,
        )),
{
    if mode == MonoItemCollectionStrategy::Eager && adt.generics_empty
        && !adt.impossible_predicates {
        match adt.ty {
            Some(ty) => tcx.types[ty.index].drop_in_place.is_some(),
            None => false,
        }
    } else {
        true
    }
}

/// Whether what is needed of an impl is known.
fn check_default_impl(def: &ImplDef) -> (res: bool)
    ensures
        res == default_impl_collectable(*def),
{
    if !may_inherit_methods(def.polarity, def.own_requires_monomorphization)
        || def.impossible_predicates {
        return true;
    }
    let mut i: usize = 0;
    while i < def.provided_methods.len()
        invariant
            impl_inherits(*def),
            i <= def.provided_methods.len(),
            forall|j: int|
                0 <= j < i && inherited(*def, #[trigger] def.provided_methods@[j])
                    ==> def.provided_methods@[j].instance is Some,
        decreases def.provided_methods.len() - i,
    {
        let method = def.provided_methods[i];
        if method.instance.is_none() && !method.own_requires_monomorphization && !contains_def_id(
            &def.overridden_methods,
            method.def_id,
        ) {
            assert(inherited(*def, def.provided_methods@[i as int]));
            return false;
        }
        i += 1;
    }
    true
}

/// Whether what is needed of a function is known.
fn check_fn(
    mode: MonoItemCollectionStrategy,
    entry_fn: Option<EntryFn>,
    def: FnDef,
) -> (res: bool)
    ensures
        res == fn_collectable(mode, entry_fn, def),
{
    def.instance.is_some() || !is_fn_root(mode, entry_fn, def)
}

/// Whether what is needed of a free item is known.
fn check_item(
    tcx: &TyCtxt,
    mode: MonoItemCollectionStrategy,
    item: &ItemKind,
    known: &Vec<bool>,
) -> (res: bool)
    requires
        tcx.wf(),
        tcx.item_wf(*item),
        known@.len() == tcx.allocs@.len(),
        forall|id: AllocId|
            id.index < tcx.allocs@.len() ==> known@[id.index as int]
                == #[trigger] alloc_collectable(*tcx, id),
    ensures
        res == item_collectable(*tcx, mode, tcx.entry_fn, *item),
{
    match item {
        ItemKind::Enum(adt) | ItemKind::Struct(adt) | ItemKind::Union(adt) => {
            check_adt(tcx, mode, *adt)
        },
        ItemKind::Const(Some(value)) => check_const_collectable(tcx, value, known),
        ItemKind::Impl(def) => {
            mode == MonoItemCollectionStrategy::Lazy || check_default_impl(def)
        },
        ItemKind::Fn(def) => check_fn(mode, tcx.entry_fn, *def),
        _ => true,
    }
}

/// Whether every fact is known that the roots of the crate depend on.
pub fn is_collectable(tcx: &TyCtxt, mode: MonoItemCollectionStrategy) -> (res: bool)
    requires
        tcx.wf(),
    ensures
        res == collectable(*tcx, mode),
{
    let known = collectable_allocs(tcx);
    let mut i: usize = 0;
    while i < tcx.free_items.len()
        invariant
            tcx.wf(),
            known@.len() == tcx.allocs@.len(),
            forall|id: AllocId|
                id.index < tcx.allocs@.len() ==> known@[id.index as int]
                    == #[trigger] alloc_collectable(*tcx, id),
            i <= tcx.free_items.len(),
            forall|j: int|
                0 <= j < i ==> item_collectable(
                    *tcx,
                    mode,
                    tcx.entry_fn,
                    #[trigger] tcx.free_items@[j],
                ),
        decreases tcx.free_items.len() - i,
    {
        assert(tcx.item_wf(tcx.free_items@[i as int]));
        if !check_item(tcx, mode, &tcx.free_items[i], &known) {
            assert(!item_collectable(*tcx, mode, tcx.entry_fn, tcx.free_items@[i as int]));
            return false;
        }
        i += 1;
    }
    let mut j: usize = 0;
    while j < tcx.impl_items.len()
        invariant
            j <= tcx.impl_items.len(),
            forall|k: int|
                0 <= k < j ==> impl_item_collectable(
                    mode,
                    tcx.entry_fn,
                    #[trigger] tcx.impl_items@[k],
                ),
        decreases tcx.impl_items.len() - j,
    {
        if let ImplItemKind::AssocFn(def) = tcx.impl_items[j] {
            if !check_fn(mode, tcx.entry_fn, def) {
                assert(!impl_item_collectable(mode, tcx.entry_fn, tcx.impl_items@[j as int]));
                return false;
            }
        }
        j += 1;
    }
    let main = match tcx.entry_fn {
        Some(entry) => match entry.kind {
            EntryFnType::Main { .. } => true,
            EntryFnType::Start => false,
        },
        None => false,
    };
    !main || tcx.start_fn.is_some()
}

} // verus!
