//! What the compiler knows of a crate, as far as it is read here.

use crate::def::AllocId;
use crate::def::DefId;
use crate::def::GenericArgs;
use crate::def::Instance;
use crate::def::LocalDefId;
use crate::def::StaticId;
use crate::def::Ty;
use crate::mono::MonoItem;
use vstd::prelude::*;

verus! {

/// Why a shim that turns a function into a function pointer is needed.
#[derive(Clone, Copy, PartialEq, Eq, Structural, Debug, Hash)]
pub enum ReifyReason {
    FnPtr,
    Vtable,
}

/// What an instance is: a body that was written, or one that the compiler makes.
#[derive(Clone, Copy, PartialEq, Eq, Structural, Debug, Hash)]
pub enum InstanceKind {
    /// A function that was written.
    Item(DefId),
    /// An intrinsic, which the code generator replaces.
    Intrinsic(DefId),
    /// `fn()` behind an unsized receiver.
    VTableShim(DefId),
    /// A function that was turned into a function pointer.
    ReifyShim(DefId, Option<ReifyReason>),
    /// A function pointer called through a closure trait.
    FnPtrShim(DefId, Ty),
    /// A call through a vtable, by the number of its slot.
    Virtual(DefId, usize),
    /// `FnOnce::call_once` of a closure that is called by reference.
    ClosureOnceShim { call_once: DefId, caller_tracked: bool },
    /// The coroutine that the body of an async closure makes.
    ConstructCoroutineInClosureShim { coroutine_closure_def_id: DefId, receiver_by_ref: bool },
    /// Access to a thread-local static.
    ThreadLocalShim(DefId),
    /// `drop_in_place`; without a type where there is nothing to drop.
    DropGlue(DefId, Option<Ty>),
    /// `Clone::clone` of a built-in type.
    CloneShim(DefId, Ty),
    /// `FnPtr::addr` of a function pointer type.
    FnPtrAddrShim(DefId, Ty),
    /// The constructor of asynchronous drop; without a type where there is
    /// nothing to drop.
    AsyncDropGlueCtorShim(DefId, Option<Ty>),
}

impl InstanceKind {
    /// The definition that an instance of this kind belongs to.
    pub open spec fn spec_def_id(self) -> DefId {
        match self {
            InstanceKind::Item(def_id) => def_id,
            InstanceKind::Intrinsic(def_id) => def_id,
            InstanceKind::VTableShim(def_id) => def_id,
            InstanceKind::ReifyShim(def_id, _) => def_id,
            InstanceKind::FnPtrShim(def_id, _) => def_id,
            InstanceKind::Virtual(def_id, _) => def_id,
            InstanceKind::ClosureOnceShim { call_once, .. } => call_once,
            InstanceKind::ConstructCoroutineInClosureShim { coroutine_closure_def_id, .. } => {
                coroutine_closure_def_id
            },
            InstanceKind::ThreadLocalShim(def_id) => def_id,
            InstanceKind::DropGlue(def_id, _) => def_id,
            InstanceKind::CloneShim(def_id, _) => def_id,
            InstanceKind::FnPtrAddrShim(def_id, _) => def_id,
            InstanceKind::AsyncDropGlueCtorShim(def_id, _) => def_id,
        }
    }

    /// The definition that an instance of this kind belongs to.
    #[verifier::when_used_as_spec(spec_def_id)]
    pub fn def_id(self) -> (res: DefId)
        ensures
            res == self.spec_def_id(),
    {
        match self {
            InstanceKind::Item(def_id) => def_id,
            InstanceKind::Intrinsic(def_id) => def_id,
            InstanceKind::VTableShim(def_id) => def_id,
            InstanceKind::ReifyShim(def_id, _) => def_id,
            InstanceKind::FnPtrShim(def_id, _) => def_id,
            InstanceKind::Virtual(def_id, _) => def_id,
            InstanceKind::ClosureOnceShim { call_once, .. } => call_once,
            InstanceKind::ConstructCoroutineInClosureShim { coroutine_closure_def_id, .. } => {
                coroutine_closure_def_id
            },
            InstanceKind::ThreadLocalShim(def_id) => def_id,
            InstanceKind::DropGlue(def_id, _) => def_id,
            InstanceKind::CloneShim(def_id, _) => def_id,
            InstanceKind::FnPtrAddrShim(def_id, _) => def_id,
            InstanceKind::AsyncDropGlueCtorShim(def_id, _) => def_id,
        }
    }
}

/// What is known of an intrinsic.
#[derive(Clone, Copy, PartialEq, Eq, Structural, Debug, Hash)]
pub struct IntrinsicDef {
    /// It asserts that a type may hold a value (of any kind, all zero, or not
    /// initialised). Code generation turns it into nothing or into a panic that
    /// does not unwind.
    pub asserts_validity: bool,
    /// It has no body to fall back on: the code generator has to replace it.
    pub must_be_overridden: bool,
    /// The body that was written for it, with the same generic arguments.
    pub fallback: Instance,
}

/// What is known of an instance.
#[derive(Clone, Copy, PartialEq, Eq, Structural, Debug, Hash)]
pub struct InstanceData {
    pub def: InstanceKind,
    pub args: GenericArgs,
    /// Code for it is generated in this crate, not found in another one.
    pub codegen_locally: bool,
    /// All predicates hold that its definition states of its arguments.
    pub instantiable: bool,
    /// Set if its definition is an intrinsic.
    pub intrinsic: Option<IntrinsicDef>,
}

/// What is known of a type.
#[derive(Clone, Copy, PartialEq, Eq, Structural, Debug, Hash)]
pub struct TypeData {
    /// The instance that drops a value of the type in place.
    pub drop_in_place: Option<Instance>,
}

/// What is known of a static.
#[derive(Clone, Copy, PartialEq, Eq, Structural, Debug, Hash)]
pub struct StaticDef {
    pub def_id: DefId,
    pub thread_local: bool,
    /// The static as an instance without generic arguments.
    pub instance: Instance,
    pub instantiable: bool,
}

/// What a number stands for where the evaluator has a pointer.
#[derive(Debug)]
pub enum GlobalAlloc {
    /// A static.
    Static(StaticId),
    /// Memory: the allocations that its bytes point to, in the order of the bytes.
    Memory(Vec<AllocId>),
    /// A function.
    Function(Instance),
    /// The vtable of a type for a trait: the memory that holds it.
    VTable(AllocId),
}

/// A value of the evaluator that fits in a register.
#[derive(Clone, Copy, PartialEq, Eq, Structural, Debug, Hash)]
pub enum Scalar {
    Int,
    Ptr(AllocId),
}

/// The value of a constant, as far as it points anywhere.
#[derive(Debug)]
pub enum ConstValue {
    Scalar(Scalar),
    ZeroSized,
    /// A slice: the allocations that the bytes behind it point to, in their order.
    Slice { data: Vec<AllocId> },
    /// A value in memory.
    Indirect { alloc_id: AllocId },
}

/// What is known of a struct, enum or union.
#[derive(Clone, Copy, PartialEq, Eq, Structural, Debug, Hash)]
pub struct AdtDef {
    /// It has no generic parameter, not even a lifetime.
    pub generics_empty: bool,
    /// Its predicates cannot hold, so no value of it can exist.
    pub impossible_predicates: bool,
    /// Its type, where that is a type without parameters.
    pub ty: Option<Ty>,
}

/// What is known of a block of assembly.
#[derive(Clone, Copy, PartialEq, Eq, Structural, Debug, Hash)]
pub struct GlobalAsmDef {
    pub instantiable: bool,
}

/// What is known of a function, free or of an impl.
#[derive(Clone, Copy, PartialEq, Eq, Structural, Debug, Hash)]
pub struct FnDef {
    pub def_id: LocalDefId,
    /// It, or what it stands in, has type or const parameters.
    pub requires_monomorphization: bool,
    /// Other crates can reach it, and it is not generic.
    pub reachable_non_generic: bool,
    /// It is a symbol that the standard library relies on.
    pub rustc_std_internal_symbol: bool,
    /// The function itself as an instance, where it needs no arguments.
    pub instance: Option<Instance>,
}

/// Whether an impl says that the trait holds, that it does not, or neither.
#[derive(Clone, Copy, PartialEq, Eq, Structural, Debug, Hash)]
pub enum ImplPolarity {
    Positive,
    Negative,
    Reservation,
}

/// A method for which a trait has a body.
#[derive(Clone, Copy, PartialEq, Eq, Structural, Debug, Hash)]
pub struct ProvidedMethod {
    pub def_id: DefId,
    /// It has type or const parameters of its own.
    pub own_requires_monomorphization: bool,
    /// The method as the impl has it, with lifetimes erased.
    pub instance: Option<Instance>,
}

/// What is known of an impl.
#[derive(Debug)]
pub struct ImplDef {
    /// Set if it is the impl of a trait.
    pub polarity: Option<ImplPolarity>,
    /// It has type or const parameters of its own.
    pub own_requires_monomorphization: bool,
    /// Its predicates cannot hold, with lifetimes erased.
    pub impossible_predicates: bool,
    /// The methods of the trait that the impl has a body for.
    pub overridden_methods: Vec<DefId>,
    /// The methods that the trait has a body for, in the order of the trait.
    pub provided_methods: Vec<ProvidedMethod>,
}

/// A free item, with what is known of it.
#[derive(Debug)]
pub enum ItemKind {
    Enum(AdtDef),
    Struct(AdtDef),
    Union(AdtDef),
    GlobalAsm(GlobalAsmDef),
    Static(StaticId),
    /// A constant: its value, where it could be evaluated.
    Const(Option<ConstValue>),
    Impl(ImplDef),
    Fn(FnDef),
    /// An item of any other kind.
    Other,
}

/// An item of an impl, with what is known of it.
#[derive(Clone, Copy, PartialEq, Eq, Structural, Debug, Hash)]
pub enum ImplItemKind {
    AssocFn(FnDef),
    /// An associated constant or type.
    Other,
}

/// How a program is entered.
#[derive(Clone, Copy, PartialEq, Eq, Structural, Debug, Hash)]
pub enum EntryFnType {
    /// Through `main`, which the standard library's start function calls.
    Main { sigpipe: u8 },
    /// Through a start function of the program's own.
    Start,
}

/// The function that a program is entered through.
#[derive(Clone, Copy, PartialEq, Eq, Structural, Debug, Hash)]
pub struct EntryFn {
    pub def_id: DefId,
    pub kind: EntryFnType,
}

/// What the compiler knows of the crate that it compiles.
///
/// Items, types, instances, statics and allocations are named by their places
/// in these lists.
#[derive(Debug)]
pub struct TyCtxt {
    pub free_items: Vec<ItemKind>,
    pub impl_items: Vec<ImplItemKind>,
    /// Set if the crate is a program.
    pub entry_fn: Option<EntryFn>,
    /// The function that calls `main`, for the type that `main` returns; not set
    /// where no crate defines one.
    pub start_fn: Option<Instance>,
    /// The function that panics without unwinding; not set where no crate
    /// defines one.
    pub panic_nounwind: Option<Instance>,
    pub types: Vec<TypeData>,
    pub instances: Vec<InstanceData>,
    pub statics: Vec<StaticDef>,
    pub allocs: Vec<GlobalAlloc>,
}

impl TyCtxt {
    /// `instance` is one of the list.
    pub open spec fn has_instance(self, instance: Instance) -> bool {
        instance.index < self.instances@.len()
    }

    /// `instance`, where there is one, is one of the list.
    pub open spec fn has_opt_instance(self, instance: Option<Instance>) -> bool {
        instance is Some ==> self.has_instance(instance->0)
    }

    /// `alloc_id` is an allocation that comes before the place `bound`.
    pub open spec fn has_alloc_below(self, alloc_id: AllocId, bound: int) -> bool {
        alloc_id.index < bound && bound <= self.allocs@.len()
    }

    /// All of `ids` are allocations that come before the place `bound`.
    pub open spec fn has_allocs_below(self, ids: Seq<AllocId>, bound: int) -> bool {
        forall|i: int| 0 <= i < ids.len() ==> self.has_alloc_below(#[trigger] ids[i], bound)
    }

    /// `instance` is the written function or static `def_id`.
    pub open spec fn is_written(self, instance: Instance, def_id: DefId) -> bool {
        self.has_instance(instance) && self.instances@[instance.index as int].def
            == InstanceKind::Item(def_id)
    }

    /// The body that an intrinsic falls back on is the written function of the
    /// same definition, with the same arguments. Drop glue is no intrinsic.
    pub open spec fn instance_wf(self, data: InstanceData) -> bool {
        data.intrinsic is Some ==> {
            let fallback = data.intrinsic->0.fallback;
            &&& !(data.def is DropGlue)
            &&& self.is_written(fallback, data.def.def_id())
            &&& self.instances@[fallback.index as int].args == data.args
        }
    }

    /// What drops a value of the type at place `i` is drop glue, of that type
    /// where there is something to drop.
    pub open spec fn type_wf(self, i: int) -> bool {
        self.types@[i].drop_in_place is Some ==> {
            let glue = self.types@[i].drop_in_place->0;
            &&& self.has_instance(glue)
            &&& match self.instances@[glue.index as int].def {
                InstanceKind::DropGlue(_, Some(ty)) => ty.index == i,
                InstanceKind::DropGlue(_, None) => true,
                _ => false,
            }
        }
    }

    /// A function's instance is that function.
    pub open spec fn fn_wf(self, def: FnDef) -> bool {
        def.instance is Some ==> self.is_written(def.instance->0, def.def_id.to_def_id())
    }

    /// The function that panics without unwinding is a written one.
    pub open spec fn panic_wf(self) -> bool {
        self.panic_nounwind is Some ==> self.has_instance(self.panic_nounwind->0)
            && self.instances@[self.panic_nounwind->0.index as int].def is Item
    }

    /// What an allocation points to comes before it: the list is written in that
    /// order, targets first. So a walk along the pointers comes to an end. (Memory
    /// can lead back to itself only through a static, which is not looked into.)
    pub open spec fn alloc_wf(self, i: int) -> bool {
        match self.allocs@[i] {
            GlobalAlloc::Static(id) => id.index < self.statics@.len(),
            GlobalAlloc::Memory(ptrs) => self.has_allocs_below(ptrs@, i),
            GlobalAlloc::Function(instance) => self.has_instance(instance),
            GlobalAlloc::VTable(alloc_id) => self.has_alloc_below(alloc_id, i),
        }
    }

    /// A constant points to allocations of the list.
    pub open spec fn const_wf(self, value: ConstValue) -> bool {
        let end = self.allocs@.len() as int;
        match value {
            ConstValue::Scalar(Scalar::Ptr(alloc_id)) => self.has_alloc_below(alloc_id, end),
            ConstValue::Slice { data } => self.has_allocs_below(data@, end),
            ConstValue::Indirect { alloc_id } => self.has_alloc_below(alloc_id, end),
            _ => true,
        }
    }

    /// The methods of an impl are instances of the list.
    pub open spec fn impl_wf(self, def: ImplDef) -> bool {
        forall|i: int|
            0 <= i < def.provided_methods@.len() ==> self.has_opt_instance(
                (#[trigger] def.provided_methods@[i]).instance,
            )
    }

    /// What an item names is in the lists.
    pub open spec fn item_wf(self, item: ItemKind) -> bool {
        match item {
            ItemKind::Enum(adt) | ItemKind::Struct(adt) | ItemKind::Union(adt) => adt.ty is Some
                ==> adt.ty->0.index < self.types@.len(),
            ItemKind::Static(id) => id.index < self.statics@.len(),
            ItemKind::Const(Some(value)) => self.const_wf(value),
            ItemKind::Impl(def) => self.impl_wf(def),
            ItemKind::Fn(def) => self.fn_wf(def),
            _ => true,
        }
    }

    /// What an item of an impl names is in the lists.
    pub open spec fn impl_item_wf(self, item: ImplItemKind) -> bool {
        item is AssocFn ==> self.fn_wf(item->AssocFn_0)
    }

    /// No two instances of the list are the same one.
    pub open spec fn instances_distinct(self) -> bool {
        forall|i: int, j: int|
            0 <= i < j < self.instances@.len() ==> !((#[trigger] self.instances@[i]).def == (
            #[trigger] self.instances@[j]).def && self.instances@[i].args
                == self.instances@[j].args)
    }

    /// No two statics of the list are the same one.
    pub open spec fn statics_distinct(self) -> bool {
        forall|i: int, j: int|
            0 <= i < j < self.statics@.len() ==> (#[trigger] self.statics@[i]).def_id != (
            #[trigger] self.statics@[j]).def_id
    }

    /// Whatever is named is in the lists, under one name only, and is what it is
    /// named as.
    pub open spec fn wf(self) -> bool {
        &&& self.has_opt_instance(self.start_fn)
        &&& self.panic_wf()
        &&& self.instances_distinct()
        &&& self.statics_distinct()
        &&& forall|i: int|
            #![trigger self.types@[i]]
            0 <= i < self.types@.len() ==> self.type_wf(i)
        &&& forall|i: int|
            0 <= i < self.instances@.len() ==> self.instance_wf(#[trigger] self.instances@[i])
        &&& forall|i: int|
            0 <= i < self.statics@.len() ==> self.is_written(
                (#[trigger] self.statics@[i]).instance,
                self.statics@[i].def_id,
            )
        &&& forall|i: int|
            #![trigger self.allocs@[i]]
            0 <= i < self.allocs@.len() ==> self.alloc_wf(i)
        &&& forall|i: int|
            0 <= i < self.free_items@.len() ==> self.item_wf(#[trigger] self.free_items@[i])
        &&& forall|i: int|
            0 <= i < self.impl_items@.len() ==> self.impl_item_wf(#[trigger] self.impl_items@[i])
    }

    /// Code for `instance` is generated in this crate.
    pub open spec fn codegen_locally(self, instance: Instance) -> bool {
        self.instances@[instance.index as int].codegen_locally
    }

    /// `item` stands for something of the lists.
    pub open spec fn has_mono_item(self, item: MonoItem) -> bool {
        match item {
            MonoItem::Fn(instance) => self.has_instance(instance),
            MonoItem::Static(id) => id.index < self.statics@.len(),
            MonoItem::GlobalAsm(id) => id.index < self.free_items@.len()
                && self.free_items@[id.index as int] is GlobalAsm,
        }
    }

    /// All predicates of `item` hold.
    pub open spec fn instantiable(self, item: MonoItem) -> bool {
        match item {
            MonoItem::Fn(instance) => self.instances@[instance.index as int].instantiable,
            MonoItem::Static(id) => self.statics@[id.index as int].instantiable,
            MonoItem::GlobalAsm(id) => self.free_items@[id.index as int]->GlobalAsm_0.instantiable,
        }
    }

    /// Whether code for `instance` is generated in this crate.
    pub fn should_codegen_locally(&self, instance: Instance) -> (res: bool)
        requires
            self.has_instance(instance),
        ensures
            res == self.codegen_locally(instance),
            res == self.instances@[instance.index as int].codegen_locally,
    {
        self.instances[instance.index].codegen_locally
    }

    /// Whether all predicates of `item` hold. What has a predicate that does not
    /// hold can never be used, so no code is needed for it.
    pub fn is_instantiable(&self, item: MonoItem) -> (res: bool)
        requires
            self.has_mono_item(item),
        ensures
            res == self.instantiable(item),
            item matches MonoItem::Fn(instance) ==> res
                == self.instances@[instance.index as int].instantiable,
            item matches MonoItem::Static(id) ==> res
                == self.statics@[id.index as int].instantiable,
            item matches MonoItem::GlobalAsm(id) ==> res
                == self.free_items@[id.index as int]->GlobalAsm_0.instantiable,
    {
        match item {
            MonoItem::Fn(instance) => self.instances[instance.index].instantiable,
            MonoItem::Static(id) => self.statics[id.index].instantiable,
            MonoItem::GlobalAsm(id) => {
                match &self.free_items[id.index] {
                    ItemKind::GlobalAsm(def) => def.instantiable,
                    _ => true,
                }
            },
        }
    }
}

} // verus!
