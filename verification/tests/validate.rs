use project_analyzer::def::{
    AllocId, DefId, GenericArgs, Instance, LocalDefId, StaticId, Ty,
};
use project_analyzer::roots::MonoItemCollectionStrategy;
use project_analyzer::tcx::{
    AdtDef, ConstValue, EntryFn, EntryFnType, FnDef, GlobalAlloc, ImplDef, ImplItemKind,
    ImplPolarity, InstanceData, InstanceKind, IntrinsicDef, ItemKind, ProvidedMethod, Scalar,
    StaticDef, TyCtxt, TypeData,
};
use project_analyzer::validate::is_collectable;

const EAGER: MonoItemCollectionStrategy = MonoItemCollectionStrategy::Eager;
const LAZY: MonoItemCollectionStrategy = MonoItemCollectionStrategy::Lazy;

fn def(index: u32) -> DefId {
    DefId { krate: 0, index }
}

fn inst(index: usize) -> Instance {
    Instance { index }
}

fn memory(index: usize) -> AllocId {
    AllocId { index }
}

fn data(index: u32, args: u64) -> InstanceData {
    InstanceData {
        def: InstanceKind::Item(def(index)),
        args: GenericArgs { id: args },
        codegen_locally: true,
        instantiable: true,
        intrinsic: None,
    }
}

fn fn_def(instance: Option<Instance>) -> FnDef {
    FnDef {
        def_id: LocalDefId { index: 0 },
        requires_monomorphization: false,
        reachable_non_generic: false,
        rustc_std_internal_symbol: false,
        instance,
    }
}

fn impl_def(instance: Option<Instance>) -> ImplDef {
    ImplDef {
        polarity: Some(ImplPolarity::Positive),
        own_requires_monomorphization: false,
        impossible_predicates: false,
        overridden_methods: vec![],
        provided_methods: vec![ProvidedMethod {
            def_id: def(3),
            own_requires_monomorphization: false,
            instance,
        }],
    }
}

/// A type with its drop glue (at 0), a static (at 1), a function (at 2), and an
/// allocation of each kind.
fn sound() -> TyCtxt {
    TyCtxt {
        free_items: vec![],
        impl_items: vec![],
        entry_fn: None,
        start_fn: None,
        panic_nounwind: None,
        types: vec![TypeData {
            drop_in_place: Some(inst(0)),
        }],
        instances: vec![
            InstanceData {
                def: InstanceKind::DropGlue(def(9), Some(Ty { index: 0 })),
                ..data(9, 0)
            },
            data(5, 0),
            data(0, 1),
        ],
        statics: vec![StaticDef {
            def_id: def(5),
            thread_local: false,
            instance: inst(1),
            instantiable: true,
        }],
        allocs: vec![
            GlobalAlloc::Static(StaticId { index: 0 }),
            GlobalAlloc::Function(inst(2)),
            GlobalAlloc::Memory(vec![memory(0), memory(1), memory(0)]),
            GlobalAlloc::VTable(memory(2)),
        ],
    }
}

#[test]
fn sound_lists_are_in_order() {
    assert!(sound().is_wf());
}

#[test]
fn functions_outside_the_list_are_found() {
    let mut tcx = sound();
    tcx.start_fn = Some(inst(3));
    assert!(!tcx.is_wf());
    let mut tcx = sound();
    tcx.panic_nounwind = Some(inst(3));
    assert!(!tcx.is_wf());
    let mut tcx = sound();
    tcx.types[0].drop_in_place = Some(inst(3));
    assert!(!tcx.is_wf());
    let mut tcx = sound();
    tcx.statics[0].instance = inst(3);
    assert!(!tcx.is_wf());
    let mut tcx = sound();
    tcx.allocs.push(GlobalAlloc::Function(inst(3)));
    assert!(!tcx.is_wf());
    let mut tcx = sound();
    tcx.free_items.push(ItemKind::Fn(fn_def(Some(inst(3)))));
    assert!(!tcx.is_wf());
    let mut tcx = sound();
    tcx.free_items.push(ItemKind::Impl(impl_def(Some(inst(3)))));
    assert!(!tcx.is_wf());
    let mut tcx = sound();
    tcx.impl_items
        .push(ImplItemKind::AssocFn(fn_def(Some(inst(3)))));
    assert!(!tcx.is_wf());
}

#[test]
fn names_outside_the_other_lists_are_found() {
    let bad_items = vec![
        ItemKind::Struct(AdtDef {
            generics_empty: true,
            impossible_predicates: false,
            ty: Some(Ty { index: 1 }),
        }),
        ItemKind::Static(StaticId { index: 1 }),
        ItemKind::Const(Some(ConstValue::Scalar(Scalar::Ptr(memory(4))))),
        ItemKind::Const(Some(ConstValue::Indirect { alloc_id: memory(4) })),
        ItemKind::Const(Some(ConstValue::Slice {
            data: vec![memory(0), memory(4)],
        })),
    ];
    for item in bad_items {
        let mut tcx = sound();
        tcx.free_items.push(item);
        assert!(!tcx.is_wf());
    }
    let mut tcx = sound();
    tcx.allocs
        .push(GlobalAlloc::Static(StaticId { index: 1 }));
    assert!(!tcx.is_wf());
}

#[test]
fn allocations_point_backwards() {
    let mut tcx = sound();
    tcx.allocs.push(GlobalAlloc::Memory(vec![memory(4)]));
    assert!(!tcx.is_wf());
    let mut tcx = sound();
    tcx.allocs.push(GlobalAlloc::VTable(memory(4)));
    assert!(!tcx.is_wf());
    let mut tcx = sound();
    tcx.allocs.push(GlobalAlloc::Memory(vec![memory(3)]));
    assert!(tcx.is_wf());
}

#[test]
fn nothing_has_two_names() {
    let mut tcx = sound();
    tcx.instances.push(data(0, 1));
    assert!(!tcx.is_wf());
    let mut tcx = sound();
    let again = tcx.statics[0];
    tcx.statics.push(again);
    assert!(!tcx.is_wf());
}

#[test]
fn an_intrinsic_falls_back_on_its_own_body() {
    let with_fallback = |fallback: Instance| {
        let mut tcx = sound();
        tcx.instances.push(InstanceData {
            def: InstanceKind::Intrinsic(def(0)),
            intrinsic: Some(IntrinsicDef {
                asserts_validity: false,
                must_be_overridden: false,
                fallback,
            }),
            ..data(0, 1)
        });
        tcx.is_wf()
    };
    assert!(with_fallback(inst(2)));
    assert!(!with_fallback(inst(0)));
    assert!(!with_fallback(inst(1)));
    assert!(!with_fallback(inst(3)));
    assert!(!with_fallback(inst(4)));
}

#[test]
fn the_instance_of_a_function_is_that_function() {
    let wf_with = |def: FnDef| {
        let mut free = sound();
        free.free_items.push(ItemKind::Fn(def));
        let mut associated = sound();
        associated.impl_items.push(ImplItemKind::AssocFn(def));
        assert_eq!(free.is_wf(), associated.is_wf());
        free.is_wf()
    };
    assert!(wf_with(fn_def(None)));
    assert!(wf_with(fn_def(Some(inst(2)))));
    assert!(!wf_with(fn_def(Some(inst(0)))));
    assert!(!wf_with(fn_def(Some(inst(1)))));
    assert!(wf_with(FnDef {
        def_id: LocalDefId { index: 5 },
        ..fn_def(Some(inst(1)))
    }));
}

#[test]
fn the_instance_of_a_static_is_that_static() {
    let mut tcx = sound();
    tcx.statics[0].instance = inst(2);
    assert!(!tcx.is_wf());
    tcx.statics[0].def_id = def(0);
    assert!(tcx.is_wf());
    tcx.statics[0].instance = inst(0);
    tcx.statics[0].def_id = def(9);
    assert!(!tcx.is_wf());
}

#[test]
fn a_type_is_dropped_by_its_own_drop_glue() {
    let mut tcx = sound();
    tcx.types[0].drop_in_place = Some(inst(2));
    assert!(!tcx.is_wf());
    let mut tcx = sound();
    tcx.types.push(TypeData {
        drop_in_place: Some(inst(0)),
    });
    assert!(!tcx.is_wf());
    tcx.types[1].drop_in_place = None;
    assert!(tcx.is_wf());
    let mut tcx = sound();
    tcx.instances[0].def = InstanceKind::DropGlue(def(9), None);
    assert!(tcx.is_wf());
    tcx.instances[0].def = InstanceKind::ThreadLocalShim(def(9));
    assert!(!tcx.is_wf());
}

#[test]
fn drop_glue_is_no_intrinsic() {
    let mut tcx = sound();
    tcx.instances.push(data(9, 0));
    assert!(tcx.is_wf());
    tcx.instances[0].intrinsic = Some(IntrinsicDef {
        asserts_validity: false,
        must_be_overridden: false,
        fallback: inst(3),
    });
    assert!(!tcx.is_wf());
    tcx.types[0].drop_in_place = None;
    assert!(!tcx.is_wf());
    tcx.instances[0].def = InstanceKind::Intrinsic(def(9));
    assert!(tcx.is_wf());
}

#[test]
fn the_function_to_panic_with_is_a_written_one() {
    let mut tcx = sound();
    tcx.panic_nounwind = Some(inst(2));
    assert!(tcx.is_wf());
    tcx.panic_nounwind = Some(inst(0));
    assert!(!tcx.is_wf());
}

fn with_item(item: ItemKind) -> TyCtxt {
    let mut tcx = sound();
    tcx.free_items.push(item);
    assert!(tcx.is_wf());
    tcx
}

#[test]
fn a_root_has_to_be_known_as_an_instance() {
    let tcx = with_item(ItemKind::Fn(fn_def(None)));
    assert!(!is_collectable(&tcx, EAGER));
    assert!(is_collectable(&tcx, LAZY));
    let tcx = with_item(ItemKind::Fn(fn_def(Some(inst(2)))));
    assert!(is_collectable(&tcx, EAGER));
    let mut tcx = sound();
    tcx.impl_items.push(ImplItemKind::AssocFn(FnDef {
        reachable_non_generic: true,
        ..fn_def(None)
    }));
    assert!(!is_collectable(&tcx, EAGER));
    assert!(!is_collectable(&tcx, LAZY));
}

#[test]
fn an_inherited_method_has_to_be_known_as_an_instance() {
    let tcx = with_item(ItemKind::Impl(impl_def(None)));
    assert!(!is_collectable(&tcx, EAGER));
    assert!(is_collectable(&tcx, LAZY));
    let overridden = ImplDef {
        overridden_methods: vec![def(3)],
        ..impl_def(None)
    };
    assert!(is_collectable(&with_item(ItemKind::Impl(overridden)), EAGER));
    let impossible = ImplDef {
        impossible_predicates: true,
        ..impl_def(None)
    };
    assert!(is_collectable(&with_item(ItemKind::Impl(impossible)), EAGER));
}

#[test]
fn a_type_has_to_have_drop_glue() {
    let adt = AdtDef {
        generics_empty: true,
        impossible_predicates: false,
        ty: Some(Ty { index: 0 }),
    };
    assert!(is_collectable(&with_item(ItemKind::Enum(adt)), EAGER));
    let untyped = AdtDef { ty: None, ..adt };
    let tcx = with_item(ItemKind::Union(untyped));
    assert!(!is_collectable(&tcx, EAGER));
    assert!(is_collectable(&tcx, LAZY));
    let mut tcx = with_item(ItemKind::Struct(adt));
    tcx.types[0].drop_in_place = None;
    assert!(tcx.is_wf());
    assert!(!is_collectable(&tcx, EAGER));
    assert!(is_collectable(&tcx, LAZY));
}

#[test]
fn a_constant_must_not_reach_a_thread_local() {
    for value in [
        ConstValue::Scalar(Scalar::Ptr(memory(3))),
        ConstValue::Indirect { alloc_id: memory(2) },
        ConstValue::Slice {
            data: vec![memory(1), memory(0)],
        },
    ] {
        let mut tcx = with_item(ItemKind::Const(Some(value)));
        assert!(is_collectable(&tcx, LAZY));
        tcx.statics[0].thread_local = true;
        assert!(!is_collectable(&tcx, LAZY));
        assert!(!is_collectable(&tcx, EAGER));
    }
    let mut tcx = with_item(ItemKind::Const(Some(ConstValue::Indirect {
        alloc_id: memory(1),
    })));
    tcx.statics[0].thread_local = true;
    assert!(is_collectable(&tcx, LAZY));
}

#[test]
fn main_needs_a_start() {
    let mut tcx = sound();
    tcx.entry_fn = Some(EntryFn {
        def_id: def(0),
        kind: EntryFnType::Main { sigpipe: 2 },
    });
    assert!(!is_collectable(&tcx, EAGER));
    tcx.start_fn = Some(inst(2));
    assert!(is_collectable(&tcx, EAGER));
    tcx.start_fn = None;
    tcx.entry_fn = Some(EntryFn {
        def_id: def(0),
        kind: EntryFnType::Start,
    });
    assert!(is_collectable(&tcx, EAGER));
}
