use project_analyzer::def::{
    AllocId, DefId, GenericArgs, ImplItemId, Instance, ItemId, LocalDefId, StaticId, Ty,
};
use project_analyzer::mono::{MonoItem, MonoItems};
use project_analyzer::roots::{
    collect_roots, create_mono_items_for_default_impls, is_fn_root, may_be_dropped,
    may_inherit_methods, MonoItemCollectionStrategy, RootCollector,
};
use project_analyzer::span::{dummy_sp, dummy_spanned, Spanned};
use project_analyzer::tcx::{
    AdtDef, ConstValue, EntryFn, EntryFnType, FnDef, GlobalAlloc, GlobalAsmDef, ImplDef,
    ImplItemKind, ImplPolarity, InstanceData, InstanceKind, ItemKind, ProvidedMethod, Scalar,
    StaticDef, TyCtxt, TypeData,
};
use project_analyzer::validate::is_collectable;

const EAGER: MonoItemCollectionStrategy = MonoItemCollectionStrategy::Eager;
const LAZY: MonoItemCollectionStrategy = MonoItemCollectionStrategy::Lazy;

fn def(index: u32) -> DefId {
    DefId { krate: 0, index }
}

fn inst(index: usize) -> Instance {
    Instance { index }
}

fn function(index: usize) -> MonoItem {
    MonoItem::Fn(inst(index))
}

/// A crate of nothing but `n` functions of its own that nothing names.
fn with_instances(n: usize) -> TyCtxt {
    let mut instances = vec![];
    for index in 0..n {
        instances.push(InstanceData {
            def: InstanceKind::Item(def(index as u32)),
            args: GenericArgs { id: 0 },
            codegen_locally: true,
            instantiable: true,
            intrinsic: None,
        });
    }
    TyCtxt {
        free_items: vec![],
        impl_items: vec![],
        entry_fn: None,
        start_fn: None,
        panic_nounwind: None,
        types: vec![],
        instances,
        statics: vec![],
        allocs: vec![],
    }
}

fn fn_def(index: usize) -> FnDef {
    FnDef {
        def_id: LocalDefId {
            index: index as u32,
        },
        requires_monomorphization: false,
        reachable_non_generic: false,
        rustc_std_internal_symbol: false,
        instance: Some(inst(index)),
    }
}

fn generic_fn(index: usize) -> FnDef {
    FnDef {
        requires_monomorphization: true,
        reachable_non_generic: true,
        rustc_std_internal_symbol: true,
        instance: None,
        ..fn_def(index)
    }
}

fn roots(tcx: &TyCtxt, mode: MonoItemCollectionStrategy) -> Vec<MonoItem> {
    assert!(tcx.is_wf());
    assert!(is_collectable(tcx, mode));
    collect_roots(tcx, mode)
}

#[test]
fn an_empty_crate_has_no_roots() {
    let tcx = with_instances(0);
    assert_eq!(roots(&tcx, EAGER), vec![]);
    assert_eq!(roots(&tcx, LAZY), vec![]);
}

#[test]
fn eager_roots_are_all_functions_that_are_not_generic() {
    let mut tcx = with_instances(3);
    tcx.free_items = vec![
        ItemKind::Fn(fn_def(2)),
        ItemKind::Fn(generic_fn(1)),
        ItemKind::Other,
        ItemKind::Fn(fn_def(0)),
    ];
    assert_eq!(roots(&tcx, EAGER), vec![function(2), function(0)]);
    assert_eq!(roots(&tcx, LAZY), vec![]);
}

#[test]
fn lazy_roots_are_reachable() {
    let mut tcx = with_instances(4);
    tcx.free_items = vec![
        ItemKind::Fn(fn_def(0)),
        ItemKind::Fn(FnDef {
            reachable_non_generic: true,
            ..fn_def(1)
        }),
        ItemKind::Fn(FnDef {
            rustc_std_internal_symbol: true,
            ..fn_def(2)
        }),
        ItemKind::Fn(generic_fn(3)),
    ];
    assert_eq!(roots(&tcx, LAZY), vec![function(1), function(2)]);
    assert_eq!(
        roots(&tcx, EAGER),
        vec![function(0), function(1), function(2)]
    );
}

#[test]
fn a_program_has_its_entry_and_its_start() {
    let mut tcx = with_instances(3);
    tcx.free_items = vec![ItemKind::Fn(fn_def(0)), ItemKind::Fn(fn_def(1))];
    tcx.entry_fn = Some(EntryFn {
        def_id: def(1),
        kind: EntryFnType::Main { sigpipe: 0 },
    });
    tcx.start_fn = Some(inst(2));
    assert_eq!(roots(&tcx, LAZY), vec![function(1), function(2)]);
    assert_eq!(
        roots(&tcx, EAGER),
        vec![function(0), function(1), function(2)]
    );
}

#[test]
fn the_start_is_asked_for_even_from_another_crate() {
    let mut tcx = with_instances(1);
    tcx.entry_fn = Some(EntryFn {
        def_id: def(1),
        kind: EntryFnType::Main { sigpipe: 0 },
    });
    tcx.start_fn = Some(inst(0));
    tcx.instances[0].codegen_locally = false;
    assert_eq!(roots(&tcx, LAZY), vec![function(0)]);
}

#[test]
fn without_main_there_is_no_start() {
    let mut tcx = with_instances(2);
    tcx.free_items = vec![ItemKind::Fn(fn_def(0))];
    tcx.start_fn = Some(inst(1));
    assert_eq!(roots(&tcx, LAZY), vec![]);
    tcx.entry_fn = Some(EntryFn {
        def_id: def(0),
        kind: EntryFnType::Start,
    });
    assert_eq!(roots(&tcx, LAZY), vec![function(0)]);
}

#[test]
fn an_entry_of_another_crate_is_not_this_function() {
    let mut tcx = with_instances(2);
    tcx.free_items = vec![ItemKind::Fn(fn_def(1))];
    tcx.entry_fn = Some(EntryFn {
        def_id: DefId { krate: 2, index: 1 },
        kind: EntryFnType::Main { sigpipe: 0 },
    });
    tcx.start_fn = Some(inst(0));
    assert_eq!(roots(&tcx, LAZY), vec![function(0)]);
}

#[test]
fn items_of_impls_come_after_free_items() {
    let mut tcx = with_instances(3);
    tcx.free_items = vec![ItemKind::Fn(fn_def(2))];
    tcx.impl_items = vec![
        ImplItemKind::AssocFn(fn_def(1)),
        ImplItemKind::Other,
        ImplItemKind::AssocFn(generic_fn(0)),
    ];
    assert_eq!(roots(&tcx, EAGER), vec![function(2), function(1)]);
}

#[test]
fn what_is_not_instantiable_is_no_root() {
    let mut tcx = with_instances(3);
    tcx.instances[0].instantiable = false;
    tcx.free_items = vec![
        ItemKind::Fn(fn_def(0)),
        ItemKind::GlobalAsm(GlobalAsmDef {
            instantiable: false,
        }),
        ItemKind::GlobalAsm(GlobalAsmDef { instantiable: true }),
        ItemKind::Static(StaticId { index: 0 }),
        ItemKind::Static(StaticId { index: 1 }),
    ];
    for index in 0..2 {
        tcx.statics.push(StaticDef {
            def_id: def(1 + index),
            thread_local: index == 1,
            instance: inst(1 + index as usize),
            instantiable: index == 1,
        });
    }
    let expected = vec![
        MonoItem::GlobalAsm(ItemId { index: 2 }),
        MonoItem::Static(StaticId { index: 1 }),
    ];
    assert_eq!(roots(&tcx, EAGER), expected);
    assert_eq!(roots(&tcx, LAZY), expected);
}

#[test]
fn statics_need_not_be_generated_here() {
    let mut tcx = with_instances(1);
    tcx.instances[0].codegen_locally = false;
    tcx.statics.push(StaticDef {
        def_id: def(0),
        thread_local: false,
        instance: inst(0),
        instantiable: true,
    });
    tcx.free_items = vec![ItemKind::Static(StaticId { index: 0 })];
    assert_eq!(
        roots(&tcx, LAZY),
        vec![MonoItem::Static(StaticId { index: 0 })]
    );
}

#[test]
fn a_declared_constant_collects_what_it_refers_to() {
    let mut tcx = with_instances(2);
    tcx.allocs = vec![
        GlobalAlloc::Function(inst(1)),
        GlobalAlloc::Memory(vec![AllocId { index: 0 }]),
    ];
    tcx.free_items = vec![
        ItemKind::Const(None),
        ItemKind::Const(Some(ConstValue::Scalar(Scalar::Ptr(AllocId { index: 1 })))),
    ];
    assert_eq!(roots(&tcx, EAGER), vec![function(1)]);
    assert_eq!(roots(&tcx, LAZY), vec![function(1)]);
}

#[test]
fn each_root_is_there_once() {
    let mut tcx = with_instances(2);
    tcx.allocs = vec![GlobalAlloc::Function(inst(1))];
    tcx.free_items = vec![
        ItemKind::Const(Some(ConstValue::Indirect {
            alloc_id: AllocId { index: 0 },
        })),
        ItemKind::Fn(fn_def(0)),
        ItemKind::Fn(fn_def(1)),
    ];
    assert_eq!(roots(&tcx, EAGER), vec![function(1), function(0)]);
}

fn adt(generics_empty: bool, impossible_predicates: bool, ty: Option<Ty>) -> AdtDef {
    AdtDef {
        generics_empty,
        impossible_predicates,
        ty,
    }
}

#[test]
fn eager_roots_have_the_drop_glue_of_types() {
    let mut tcx = with_instances(3);
    for index in 0..3 {
        tcx.instances[index].def = InstanceKind::DropGlue(def(9), Some(Ty { index }));
        tcx.types.push(TypeData {
            drop_in_place: Some(inst(index)),
        });
    }
    tcx.free_items = vec![
        ItemKind::Struct(adt(true, false, Some(Ty { index: 1 }))),
        ItemKind::Enum(adt(true, false, Some(Ty { index: 0 }))),
        ItemKind::Union(adt(true, false, Some(Ty { index: 2 }))),
        ItemKind::Struct(adt(false, false, None)),
        ItemKind::Enum(adt(true, true, None)),
    ];
    assert_eq!(
        roots(&tcx, EAGER),
        vec![function(1), function(0), function(2)]
    );
    assert_eq!(roots(&tcx, LAZY), vec![]);
}

#[test]
fn types_without_drop_have_no_glue() {
    let mut tcx = with_instances(1);
    tcx.instances[0].def = InstanceKind::DropGlue(def(9), None);
    tcx.types.push(TypeData {
        drop_in_place: Some(inst(0)),
    });
    tcx.free_items = vec![ItemKind::Struct(adt(true, false, Some(Ty { index: 0 })))];
    assert_eq!(roots(&tcx, EAGER), vec![]);
}

/// The impl of a trait with five methods: one that it overrides (10), one that
/// is generic (11), and three that it takes over (12 to 14), of which the first
/// is not instantiable and the second is generated in another crate.
fn an_impl() -> ImplDef {
    let method = |index: usize, generic: bool| ProvidedMethod {
        def_id: def(10 + index as u32),
        own_requires_monomorphization: generic,
        instance: if generic { None } else { Some(inst(index)) },
    };
    ImplDef {
        polarity: Some(ImplPolarity::Positive),
        own_requires_monomorphization: false,
        impossible_predicates: false,
        overridden_methods: vec![def(10), def(99)],
        provided_methods: vec![
            method(0, false),
            method(1, true),
            method(2, false),
            method(3, false),
            method(4, false),
        ],
    }
}

fn with_impl(def: ImplDef) -> TyCtxt {
    let mut tcx = with_instances(5);
    tcx.instances[2].instantiable = false;
    tcx.instances[3].codegen_locally = false;
    tcx.free_items = vec![ItemKind::Impl(def)];
    tcx
}

#[test]
fn eager_roots_have_inherited_methods() {
    let tcx = with_impl(an_impl());
    assert_eq!(roots(&tcx, EAGER), vec![function(4)]);
    assert_eq!(roots(&tcx, LAZY), vec![]);
    let mut output = MonoItems::new();
    create_mono_items_for_default_impls(&tcx, &an_impl(), &mut output);
    assert_eq!(output.items(), vec![function(4)]);
}

#[test]
fn inherited_methods_come_in_the_order_of_the_trait() {
    let mut tcx = with_impl(ImplDef {
        overridden_methods: vec![],
        ..an_impl()
    });
    tcx.instances[2].instantiable = true;
    tcx.instances[3].codegen_locally = true;
    assert_eq!(
        roots(&tcx, EAGER),
        vec![function(0), function(2), function(3), function(4)]
    );
}

#[test]
fn impls_that_inherit_nothing() {
    let cases = vec![
        ImplDef {
            polarity: None,
            ..an_impl()
        },
        ImplDef {
            polarity: Some(ImplPolarity::Negative),
            ..an_impl()
        },
        ImplDef {
            own_requires_monomorphization: true,
            ..an_impl()
        },
        ImplDef {
            impossible_predicates: true,
            ..an_impl()
        },
    ];
    for def in cases {
        assert_eq!(roots(&with_impl(def), EAGER), vec![]);
    }
    let reservation = ImplDef {
        polarity: Some(ImplPolarity::Reservation),
        ..an_impl()
    };
    assert_eq!(roots(&with_impl(reservation), EAGER), vec![function(4)]);
}

#[test]
fn which_facts_are_needed() {
    assert!(may_be_dropped(true, false));
    assert!(!may_be_dropped(true, true));
    assert!(!may_be_dropped(false, false));
    assert!(may_inherit_methods(Some(ImplPolarity::Positive), false));
    assert!(may_inherit_methods(Some(ImplPolarity::Reservation), false));
    assert!(!may_inherit_methods(Some(ImplPolarity::Positive), true));
    assert!(!may_inherit_methods(Some(ImplPolarity::Negative), false));
    assert!(!may_inherit_methods(None, false));
}

#[test]
fn lazy_roots_are_among_the_eager_ones() {
    let mut tcx = with_impl(an_impl());
    tcx.free_items.push(ItemKind::Fn(FnDef {
        reachable_non_generic: true,
        ..fn_def(1)
    }));
    tcx.free_items.push(ItemKind::Fn(fn_def(0)));
    let eager = roots(&tcx, EAGER);
    let lazy = roots(&tcx, LAZY);
    assert_eq!(lazy, vec![function(1)]);
    assert_eq!(eager, vec![function(4), function(1), function(0)]);
    assert!(lazy.iter().all(|item| eager.contains(item)));
}

#[test]
fn the_steps_of_a_collector() {
    let mut tcx = with_instances(4);
    tcx.free_items = vec![
        ItemKind::Fn(fn_def(3)),
        ItemKind::GlobalAsm(GlobalAsmDef { instantiable: true }),
    ];
    tcx.impl_items = vec![ImplItemKind::Other, ImplItemKind::AssocFn(fn_def(2))];
    tcx.entry_fn = Some(EntryFn {
        def_id: def(2),
        kind: EntryFnType::Main { sigpipe: 0 },
    });
    tcx.start_fn = Some(inst(0));
    assert!(tcx.is_wf());
    let mut collector = RootCollector {
        tcx: &tcx,
        strategy: LAZY,
        output: MonoItems::new(),
        entry_fn: tcx.entry_fn,
    };
    assert!(!collector.is_root(fn_def(3)));
    assert!(collector.is_root(fn_def(2)));
    assert!(!collector.is_root(generic_fn(2)));
    collector.process_item(ItemId { index: 0 });
    assert!(collector.output.is_empty());
    collector.process_item(ItemId { index: 1 });
    collector.process_impl_item(ImplItemId { index: 0 });
    collector.process_impl_item(ImplItemId { index: 1 });
    collector.push_if_root(fn_def(1));
    collector.push_extra_entry_roots();
    assert_eq!(
        collector.output.items(),
        vec![
            MonoItem::GlobalAsm(ItemId { index: 1 }),
            function(2),
            function(0)
        ]
    );
    let mut eager = RootCollector {
        tcx: &tcx,
        strategy: EAGER,
        output: MonoItems::new(),
        entry_fn: None,
    };
    eager.push_if_root(fn_def(1));
    eager.push_if_root(generic_fn(3));
    eager.push_extra_entry_roots();
    assert_eq!(eager.output.items(), vec![function(1)]);
}

#[test]
fn facts_of_single_items() {
    let mut tcx = with_instances(2);
    tcx.instances[1].codegen_locally = false;
    tcx.instances[1].instantiable = false;
    tcx.free_items = vec![ItemKind::GlobalAsm(GlobalAsmDef {
        instantiable: false,
    })];
    assert!(tcx.should_codegen_locally(inst(0)));
    assert!(!tcx.should_codegen_locally(inst(1)));
    assert!(tcx.is_instantiable(function(0)));
    assert!(!tcx.is_instantiable(function(1)));
    assert!(!tcx.is_instantiable(MonoItem::GlobalAsm(ItemId { index: 0 })));
}

#[test]
fn eager_roots_have_only_functions_beyond_the_lazy_ones() {
    let mut tcx = with_impl(an_impl());
    tcx.statics.push(StaticDef {
        def_id: def(0),
        thread_local: false,
        instance: inst(0),
        instantiable: true,
    });
    tcx.free_items.push(ItemKind::Static(StaticId { index: 0 }));
    tcx.free_items
        .push(ItemKind::GlobalAsm(GlobalAsmDef { instantiable: true }));
    tcx.free_items.push(ItemKind::Fn(fn_def(1)));
    let mut eager = roots(&tcx, EAGER);
    let lazy = roots(&tcx, LAZY);
    assert_eq!(
        lazy,
        vec![
            MonoItem::Static(StaticId { index: 0 }),
            MonoItem::GlobalAsm(ItemId { index: 2 }),
        ]
    );
    eager.retain(|item| !lazy.contains(item));
    assert_eq!(eager, vec![function(4), function(1)]);
}

#[test]
fn free_items_ask_at_no_place() {
    let mut tcx = with_impl(an_impl());
    tcx.free_items
        .push(ItemKind::GlobalAsm(GlobalAsmDef { instantiable: true }));
    tcx.free_items.push(ItemKind::Fn(fn_def(0)));
    assert!(tcx.is_wf());
    assert!(is_collectable(&tcx, EAGER));
    let mut collector = RootCollector {
        tcx: &tcx,
        strategy: EAGER,
        output: MonoItems::new(),
        entry_fn: None,
    };
    for index in 0..3 {
        collector.process_item(ItemId { index });
    }
    assert_eq!(
        collector.output.into_iter(),
        vec![
            Spanned {
                node: function(4),
                span: dummy_sp()
            },
            Spanned {
                node: MonoItem::GlobalAsm(ItemId { index: 1 }),
                span: dummy_sp()
            },
            Spanned {
                node: function(0),
                span: dummy_sp()
            },
        ]
    );
}

#[test]
fn inherited_methods_that_come_in_follow_the_trait() {
    let mut tcx = with_impl(an_impl());
    tcx.instances[2].instantiable = true;
    tcx.instances[3].codegen_locally = true;
    let mut output = MonoItems::new();
    output.push(dummy_spanned(function(3)));
    create_mono_items_for_default_impls(&tcx, &an_impl(), &mut output);
    assert_eq!(
        output.items(),
        vec![function(3), function(2), function(4)]
    );
}

#[test]
fn which_functions_are_roots() {
    let entry = Some(EntryFn {
        def_id: def(1),
        kind: EntryFnType::Main { sigpipe: 0 },
    });
    assert!(is_fn_root(LAZY, entry, fn_def(1)));
    assert!(!is_fn_root(LAZY, entry, fn_def(0)));
    assert!(!is_fn_root(LAZY, None, fn_def(1)));
    assert!(is_fn_root(EAGER, None, fn_def(0)));
    assert!(!is_fn_root(EAGER, entry, generic_fn(1)));
    assert!(!is_fn_root(LAZY, entry, generic_fn(1)));
}
