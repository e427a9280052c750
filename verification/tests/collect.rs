use project_analyzer::collect::{
    collect_alloc, collect_const_value, create_fn_mono_item, visit_drop_use, visit_instance_use,
};
use project_analyzer::def::{AllocId, DefId, GenericArgs, Instance, StaticId, Ty};
use project_analyzer::mono::{MonoItem, MonoItems};
use project_analyzer::span::{dummy_sp, dummy_spanned, Span, Spanned};
use project_analyzer::tcx::{
    ConstValue, GlobalAlloc, InstanceData, InstanceKind, IntrinsicDef, Scalar, StaticDef, TyCtxt,
    TypeData,
};
use project_analyzer::validate;

fn def(index: u32) -> DefId {
    DefId { krate: 0, index }
}

fn inst(index: usize) -> Instance {
    Instance { index }
}

fn memory(index: usize) -> AllocId {
    AllocId { index }
}

fn function(index: usize) -> MonoItem {
    MonoItem::Fn(inst(index))
}

fn static_item(index: usize) -> MonoItem {
    MonoItem::Static(StaticId { index })
}

fn data(kind: InstanceKind, args: u64, codegen_locally: bool) -> InstanceData {
    InstanceData {
        def: kind,
        args: GenericArgs { id: args },
        codegen_locally,
        instantiable: true,
        intrinsic: None,
    }
}

fn empty() -> TyCtxt {
    TyCtxt {
        free_items: vec![],
        impl_items: vec![],
        entry_fn: None,
        start_fn: None,
        panic_nounwind: None,
        types: vec![],
        instances: vec![],
        statics: vec![],
        allocs: vec![],
    }
}

/// Three local functions, one of another crate (at 3), and two statics, the
/// second of another crate.
fn with_allocs(allocs: Vec<GlobalAlloc>) -> TyCtxt {
    let mut tcx = empty();
    for index in 0..6 {
        let local = index != 3 && index != 5;
        tcx.instances
            .push(data(InstanceKind::Item(def(index)), 0, local));
    }
    for index in 0..2 {
        tcx.statics.push(StaticDef {
            def_id: def(4 + index),
            thread_local: false,
            instance: inst(4 + index as usize),
            instantiable: true,
        });
    }
    tcx.allocs = allocs;
    assert!(tcx.is_wf());
    tcx
}

fn collected(tcx: &TyCtxt, id: usize) -> Vec<MonoItem> {
    let mut output = MonoItems::new();
    collect_alloc(tcx, memory(id), &mut output);
    output.items()
}

#[test]
fn functions_of_this_crate_are_collected() {
    let tcx = with_allocs(vec![
        GlobalAlloc::Function(inst(1)),
        GlobalAlloc::Function(inst(3)),
    ]);
    assert_eq!(collected(&tcx, 0), vec![function(1)]);
    assert_eq!(collected(&tcx, 1), vec![]);
}

#[test]
fn statics_of_this_crate_are_collected() {
    let tcx = with_allocs(vec![
        GlobalAlloc::Static(StaticId { index: 0 }),
        GlobalAlloc::Static(StaticId { index: 1 }),
    ]);
    assert_eq!(collected(&tcx, 0), vec![static_item(0)]);
    assert_eq!(collected(&tcx, 1), vec![]);
}

#[test]
fn memory_is_walked_in_the_order_of_its_pointers() {
    let tcx = with_allocs(vec![
        GlobalAlloc::Function(inst(0)),
        GlobalAlloc::Function(inst(1)),
        GlobalAlloc::Function(inst(2)),
        GlobalAlloc::Static(StaticId { index: 0 }),
        GlobalAlloc::Memory(vec![memory(2), memory(1)]),
        GlobalAlloc::Memory(vec![memory(3), memory(4), memory(0), memory(1)]),
        GlobalAlloc::Memory(vec![]),
    ]);
    assert_eq!(collected(&tcx, 4), vec![function(2), function(1)]);
    assert_eq!(
        collected(&tcx, 5),
        vec![static_item(0), function(2), function(1), function(0)]
    );
    assert_eq!(collected(&tcx, 6), vec![]);
}

#[test]
fn vtables_are_walked() {
    let tcx = with_allocs(vec![
        GlobalAlloc::Function(inst(0)),
        GlobalAlloc::Function(inst(2)),
        GlobalAlloc::Memory(vec![memory(1), memory(0)]),
        GlobalAlloc::VTable(memory(2)),
        GlobalAlloc::Memory(vec![memory(3)]),
    ]);
    assert_eq!(collected(&tcx, 3), vec![function(2), function(0)]);
    assert_eq!(collected(&tcx, 4), vec![function(2), function(0)]);
}

#[test]
fn collecting_adds_to_what_is_there() {
    let tcx = with_allocs(vec![
        GlobalAlloc::Function(inst(0)),
        GlobalAlloc::Function(inst(1)),
        GlobalAlloc::Memory(vec![memory(0), memory(1)]),
    ]);
    let place = Span { lo: 4, hi: 9 };
    let mut output = MonoItems::new();
    output.push(Spanned {
        node: function(1),
        span: place,
    });
    collect_alloc(&tcx, memory(2), &mut output);
    collect_alloc(&tcx, memory(2), &mut output);
    assert_eq!(
        output.into_iter(),
        vec![
            Spanned {
                node: function(1),
                span: place
            },
            dummy_spanned(function(0))
        ]
    );
}

#[test]
fn long_chains_do_not_exhaust_the_stack() {
    let mut allocs = vec![GlobalAlloc::Function(inst(0))];
    for index in 0..200_000 {
        allocs.push(GlobalAlloc::Memory(vec![memory(index)]));
    }
    let tcx = with_allocs(allocs);
    assert_eq!(collected(&tcx, 200_000), vec![function(0)]);
}

#[test]
fn constants_ask_for_what_they_point_to() {
    let tcx = with_allocs(vec![
        GlobalAlloc::Function(inst(0)),
        GlobalAlloc::Function(inst(1)),
        GlobalAlloc::Memory(vec![memory(1), memory(0)]),
    ]);
    let cases = vec![
        (
            ConstValue::Scalar(Scalar::Ptr(memory(2))),
            vec![function(1), function(0)],
        ),
        (ConstValue::Scalar(Scalar::Int), vec![]),
        (ConstValue::ZeroSized, vec![]),
        (
            ConstValue::Indirect { alloc_id: memory(0) },
            vec![function(0)],
        ),
        (
            ConstValue::Slice {
                data: vec![memory(0), memory(2)],
            },
            vec![function(0), function(1)],
        ),
        (ConstValue::Slice { data: vec![] }, vec![]),
    ];
    for (value, expected) in cases {
        let mut output = MonoItems::new();
        collect_const_value(&tcx, &value, &mut output);
        assert_eq!(output.items(), expected);
    }
}

fn used(tcx: &TyCtxt, index: usize, is_direct_call: bool) -> Vec<Spanned<MonoItem>> {
    assert!(tcx.is_wf());
    let mut output = MonoItems::new();
    visit_instance_use(
        tcx,
        inst(index),
        is_direct_call,
        Span { lo: 1, hi: 2 },
        &mut output,
    );
    output.into_iter()
}

fn here(index: usize) -> Spanned<MonoItem> {
    create_fn_mono_item(inst(index), Span { lo: 1, hi: 2 })
}

#[test]
fn the_request_for_a_function() {
    assert_eq!(
        create_fn_mono_item(inst(3), dummy_sp()),
        dummy_spanned(function(3))
    );
}

#[test]
fn a_use_asks_for_what_has_code() {
    let ty = Ty { index: 0 };
    let kinds = vec![
        InstanceKind::Item(def(1)),
        InstanceKind::VTableShim(def(1)),
        InstanceKind::ReifyShim(def(1), None),
        InstanceKind::FnPtrShim(def(1), ty),
        InstanceKind::ClosureOnceShim {
            call_once: def(1),
            caller_tracked: false,
        },
        InstanceKind::ConstructCoroutineInClosureShim {
            coroutine_closure_def_id: def(1),
            receiver_by_ref: true,
        },
        InstanceKind::DropGlue(def(1), Some(ty)),
        InstanceKind::CloneShim(def(1), ty),
        InstanceKind::FnPtrAddrShim(def(1), ty),
        InstanceKind::AsyncDropGlueCtorShim(def(1), Some(ty)),
    ];
    for kind in kinds {
        let mut tcx = empty();
        tcx.instances.push(data(kind, 0, true));
        assert_eq!(used(&tcx, 0, true), vec![here(0)]);
        assert_eq!(used(&tcx, 0, false), vec![here(0)]);
        assert_eq!(kind.def_id(), def(1));
        tcx.instances[0].codegen_locally = false;
        assert_eq!(used(&tcx, 0, true), vec![]);
        assert_eq!(used(&tcx, 0, false), vec![]);
    }
}

#[test]
fn empty_drop_glue_is_asked_for_unless_called() {
    for kind in [
        InstanceKind::DropGlue(def(1), None),
        InstanceKind::AsyncDropGlueCtorShim(def(1), None),
    ] {
        let mut tcx = empty();
        tcx.instances.push(data(kind, 0, true));
        assert_eq!(used(&tcx, 0, true), vec![]);
        assert_eq!(used(&tcx, 0, false), vec![here(0)]);
    }
}

#[test]
fn a_direct_use_asks_for_no_more_than_an_indirect_one() {
    let kinds = [
        (InstanceKind::Item(def(1)), false),
        (InstanceKind::DropGlue(def(1), Some(Ty { index: 0 })), false),
        (InstanceKind::DropGlue(def(1), None), true),
        (InstanceKind::AsyncDropGlueCtorShim(def(1), None), true),
    ];
    for (kind, is_empty_glue) in kinds {
        let mut tcx = empty();
        tcx.instances.push(data(kind, 0, true));
        let mut direct = used(&tcx, 0, true);
        if is_empty_glue {
            direct.push(here(0));
        }
        assert_eq!(used(&tcx, 0, false), direct);
    }
}

#[test]
fn allocations_ask_at_no_place() {
    let tcx = with_allocs(vec![
        GlobalAlloc::Function(inst(0)),
        GlobalAlloc::Static(StaticId { index: 0 }),
        GlobalAlloc::Memory(vec![memory(1), memory(0)]),
        GlobalAlloc::VTable(memory(2)),
    ]);
    let mut output = MonoItems::new();
    collect_alloc(&tcx, memory(3), &mut output);
    assert_eq!(
        output.into_iter(),
        vec![
            Spanned {
                node: static_item(0),
                span: dummy_sp()
            },
            Spanned {
                node: function(0),
                span: dummy_sp()
            },
        ]
    );
}

#[test]
fn what_has_no_code_is_not_asked_for() {
    for kind in [
        InstanceKind::Virtual(def(1), 3),
        InstanceKind::Intrinsic(def(1)),
    ] {
        let mut tcx = empty();
        tcx.instances.push(data(kind, 0, true));
        assert_eq!(used(&tcx, 0, true), vec![]);
        tcx.instances[0].codegen_locally = false;
        assert_eq!(used(&tcx, 0, false), vec![]);
    }
    let mut tcx = empty();
    tcx.instances
        .push(data(InstanceKind::ThreadLocalShim(def(1)), 0, false));
    assert_eq!(used(&tcx, 0, true), vec![]);
}

/// An intrinsic (at 0), the body that it falls back on (at 1), and the function
/// that panics without unwinding (at 2).
fn with_intrinsic(asserts_validity: bool, must_be_overridden: bool) -> TyCtxt {
    let mut tcx = empty();
    let mut intrinsic = data(InstanceKind::Intrinsic(def(7)), 4, true);
    intrinsic.intrinsic = Some(IntrinsicDef {
        asserts_validity,
        must_be_overridden,
        fallback: inst(1),
    });
    tcx.instances.push(intrinsic);
    tcx.instances.push(data(InstanceKind::Item(def(7)), 4, true));
    tcx.instances.push(data(InstanceKind::Item(def(9)), 0, true));
    tcx.panic_nounwind = Some(inst(2));
    tcx
}

#[test]
fn intrinsics_that_assert_validity_need_the_panic() {
    for must_be_overridden in [false, true] {
        let mut tcx = with_intrinsic(true, must_be_overridden);
        assert_eq!(used(&tcx, 0, true), vec![here(2)]);
        tcx.instances[2].codegen_locally = false;
        assert_eq!(used(&tcx, 0, true), vec![]);
    }
}

#[test]
fn intrinsics_fall_back_on_their_body() {
    let mut tcx = with_intrinsic(false, false);
    assert_eq!(used(&tcx, 0, true), vec![here(1)]);
    tcx.instances[1].codegen_locally = false;
    assert_eq!(used(&tcx, 0, true), vec![]);
    let tcx = with_intrinsic(false, true);
    assert_eq!(used(&tcx, 0, true), vec![]);
}

#[test]
fn a_used_body_of_an_intrinsic_is_asked_for_once() {
    let mut tcx = with_intrinsic(false, false);
    tcx.instances[1].intrinsic = tcx.instances[0].intrinsic;
    assert_eq!(used(&tcx, 1, true), vec![here(1)]);
    let mut tcx = with_intrinsic(true, false);
    tcx.instances[1].intrinsic = tcx.instances[0].intrinsic;
    assert_eq!(used(&tcx, 1, true), vec![here(2), here(1)]);
}

#[test]
fn a_drop_uses_the_drop_glue() {
    let mut tcx = empty();
    tcx.instances.push(data(
        InstanceKind::DropGlue(def(1), Some(Ty { index: 0 })),
        0,
        true,
    ));
    tcx.instances
        .push(data(InstanceKind::DropGlue(def(1), None), 1, true));
    tcx.types.push(TypeData {
        drop_in_place: Some(inst(0)),
    });
    tcx.types.push(TypeData {
        drop_in_place: Some(inst(1)),
    });
    assert!(tcx.is_wf());
    let mut output = MonoItems::new();
    visit_drop_use(&tcx, Ty { index: 0 }, true, dummy_sp(), &mut output);
    visit_drop_use(&tcx, Ty { index: 1 }, true, dummy_sp(), &mut output);
    assert_eq!(output.items(), vec![function(0)]);
    visit_drop_use(&tcx, Ty { index: 1 }, false, dummy_sp(), &mut output);
    assert_eq!(output.items(), vec![function(0), function(1)]);
}

#[test]
fn a_drop_of_nothing_leaves_the_collection_as_it_is() {
    let mut tcx = empty();
    tcx.instances
        .push(data(InstanceKind::DropGlue(def(1), None), 0, true));
    tcx.instances.push(data(InstanceKind::Item(def(2)), 0, true));
    tcx.types.push(TypeData {
        drop_in_place: Some(inst(0)),
    });
    assert!(tcx.is_wf());
    let mut output = MonoItems::new();
    output.push(dummy_spanned(function(1)));
    visit_drop_use(&tcx, Ty { index: 0 }, true, dummy_sp(), &mut output);
    assert_eq!(output.items(), vec![function(1)]);
}

#[test]
fn a_use_adds_two_functions_at_most_behind_what_was_there() {
    let mut tcx = with_intrinsic(true, false);
    tcx.instances[1].intrinsic = tcx.instances[0].intrinsic;
    tcx.instances.push(data(InstanceKind::Item(def(3)), 0, true));
    assert!(tcx.is_wf());
    let mut output = MonoItems::new();
    output.push(dummy_spanned(function(3)));
    visit_instance_use(&tcx, inst(0), true, dummy_sp(), &mut output);
    assert_eq!(output.items(), vec![function(3), function(2)]);
    visit_instance_use(&tcx, inst(1), false, dummy_sp(), &mut output);
    assert_eq!(
        output.items(),
        vec![function(3), function(2), function(1)]
    );
}

#[test]
fn an_empty_crate_is_in_order() {
    let tcx = empty();
    assert!(tcx.is_wf());
    for mode in [
        project_analyzer::roots::MonoItemCollectionStrategy::Eager,
        project_analyzer::roots::MonoItemCollectionStrategy::Lazy,
    ] {
        assert!(validate::is_collectable(&tcx, mode));
    }
}
