//! What constants and uses of functions ask code for.

use crate::def::AllocId;
use crate::def::Instance;
use crate::def::Ty;
use crate::mono::extended;
use crate::mono::lemma_extended_append;
use crate::mono::lemma_extended_one;
use crate::mono::MonoItem;
use crate::mono::MonoItems;
use crate::span::dummy_sp;
use crate::span::dummy_spanned;
use crate::span::respan;
use crate::span::Span;
use crate::span::Spanned;
use crate::tcx::ConstValue;
use crate::tcx::GlobalAlloc;
use crate::tcx::InstanceKind;
use crate::tcx::Scalar;
use crate::tcx::TyCtxt;
use vstd::prelude::*;

verus! {

/// The request for the function `instance`.
pub open spec fn fn_item(instance: Instance, source: Span) -> Spanned<MonoItem> {
    Spanned { node: MonoItem::Fn(instance), span: source }
}

/// The request for `instance`, if its code is generated in this crate.
pub open spec fn local_fn_items(tcx: TyCtxt, instance: Instance, source: Span) -> Seq<
    Spanned<MonoItem>,
> {
    if tcx.codegen_locally(instance) {
        seq![fn_item(instance, source)]
    } else {
        seq![]
    }
}

/// What the allocation `alloc_id` asks for: the functions and statics that can
/// be reached from it through memory and vtables, in the order in which the
/// pointers to them lie there, as often as there is a way to them. A static is
/// asked for, and not looked into.
pub open spec fn alloc_items(tcx: TyCtxt, alloc_id: AllocId) -> Seq<Spanned<MonoItem>>
    decreases alloc_id.index, 1nat, 0nat,
    when tcx.wf() && alloc_id.index < tcx.allocs@.len()
{
    match tcx.allocs@[alloc_id.index as int] {
        GlobalAlloc::Static(id) => {
            if tcx.codegen_locally(tcx.statics@[id.index as int].instance) {
                seq![Spanned { node: MonoItem::Static(id), span: dummy_sp() }]
            } else {
                seq![]
            }
        },
        GlobalAlloc::Memory(ptrs) => {
            proof {
                assert(tcx.alloc_wf(alloc_id.index as int));
            }
            all_alloc_items(tcx, ptrs@, alloc_id.index)
        },
        GlobalAlloc::Function(instance) => local_fn_items(tcx, instance, dummy_sp()),
        GlobalAlloc::VTable(memory) => alloc_items(tcx, memory),
    }
}

/// What the allocations `ids`, which all come before the place `bound`, ask for,
/// one after the other.
pub open spec fn all_alloc_items(tcx: TyCtxt, ids: Seq<AllocId>, bound: usize) -> Seq<
    Spanned<MonoItem>,
>
    decreases bound, 0nat, ids.len(),
    when tcx.wf() && tcx.has_allocs_below(ids, bound as int)
{
    if ids.len() == 0 {
        seq![]
    } else {
        alloc_items(tcx, ids[0]) + all_alloc_items(tcx, ids.drop_first(), bound)
    }
}

/// No thread-local static can be reached from the allocation `alloc_id` through
/// memory and vtables. Such a static has no address at compile time.
pub open spec fn alloc_collectable(tcx: TyCtxt, alloc_id: AllocId) -> bool
    decreases alloc_id.index, 1nat, 0nat,
    when tcx.wf() && alloc_id.index < tcx.allocs@.len()
{
    match tcx.allocs@[alloc_id.index as int] {
        GlobalAlloc::Static(id) => !tcx.statics@[id.index as int].thread_local,
        GlobalAlloc::Memory(ptrs) => {
            proof {
                assert(tcx.alloc_wf(alloc_id.index as int));
            }
            all_allocs_collectable(tcx, ptrs@, alloc_id.index)
        },
        GlobalAlloc::Function(_) => true,
        GlobalAlloc::VTable(memory) => alloc_collectable(tcx, memory),
    }
}

/// The same of all allocations `ids`, which come before the place `bound`.
pub open spec fn all_allocs_collectable(tcx: TyCtxt, ids: Seq<AllocId>, bound: usize) -> bool
    decreases bound, 0nat, ids.len(),
    when tcx.wf() && tcx.has_allocs_below(ids, bound as int)
{
    forall|i: int| 0 <= i < ids.len() ==> alloc_collectable(tcx, #[trigger] ids[i])
}

/// How many steps it takes to walk through the allocation `alloc_id`.
spec fn alloc_steps(tcx: TyCtxt, alloc_id: AllocId) -> nat
    decreases alloc_id.index, 1nat, 0nat,
    when tcx.wf() && alloc_id.index < tcx.allocs@.len()
{
    match tcx.allocs@[alloc_id.index as int] {
        GlobalAlloc::Memory(ptrs) => {
            proof {
                assert(tcx.alloc_wf(alloc_id.index as int));
            }
            1 + all_alloc_steps(tcx, ptrs@, alloc_id.index)
        },
        GlobalAlloc::VTable(memory) => 1 + alloc_steps(tcx, memory),
        _ => 1,
    }
}

/// How many steps it takes to walk through the allocations `ids`.
spec fn all_alloc_steps(tcx: TyCtxt, ids: Seq<AllocId>, bound: usize) -> nat
    decreases bound, 0nat, ids.len(),
    when tcx.wf() && tcx.has_allocs_below(ids, bound as int)
{
    if ids.len() == 0 {
        0
    } else {
        alloc_steps(tcx, ids[0]) + all_alloc_steps(tcx, ids.drop_first(), bound)
    }
}

/// What a walk still has to ask for that has `stack` before it, the next
/// allocation last.
spec fn pending_items(tcx: TyCtxt, stack: Seq<AllocId>) -> Seq<Spanned<MonoItem>>
    decreases stack.len(),
{
    if stack.len() == 0 {
        seq![]
    } else {
        alloc_items(tcx, stack.last()) + pending_items(tcx, stack.drop_last())
    }
}

/// How many steps such a walk still takes.
spec fn pending_steps(tcx: TyCtxt, stack: Seq<AllocId>) -> nat
    decreases stack.len(),
{
    if stack.len() == 0 {
        0
    } else {
        alloc_steps(tcx, stack.last()) + pending_steps(tcx, stack.drop_last())
    }
}

/// Scans the compile-time allocation `alloc_id` for the functions and statics
/// that it points to, and asks for those whose code is generated in this crate.
pub fn collect_alloc(tcx: &TyCtxt, alloc_id: AllocId, output: &mut MonoItems)
    requires
        tcx.wf(),
        alloc_id.index < tcx.allocs@.len(),
        alloc_collectable(*tcx, alloc_id),
        old(output).inv(),
    ensures
        final(output).inv(),
        final(output)@ == extended(old(output)@, alloc_items(*tcx, alloc_id)),
{
    let ghost start = output@;
    let mut stack: Vec<AllocId> = Vec::new();
    stack.push(alloc_id);
    proof {
        reveal_with_fuel(pending_items, 2);
        assert(stack@.drop_last() =~= Seq::<AllocId>::empty());
        assert(pending_items(*tcx, stack@) =~= alloc_items(*tcx, alloc_id));
    }
    while stack.len() > 0
        invariant
            tcx.wf(),
            tcx.has_allocs_below(stack@, tcx.allocs@.len() as int),
            forall|i: int| 0 <= i < stack@.len() ==> alloc_collectable(*tcx, #[trigger] stack@[i]),
            output.inv(),
            extended(output@, pending_items(*tcx, stack@)) == extended(
                start,
                alloc_items(*tcx, alloc_id),
            ),
        decreases pending_steps(*tcx, stack@),
    {
        let ghost before = stack@;
        let ghost seen = output@;
        let id = stack.pop().unwrap();
        let ghost rest = stack@;
        proof {
            assert(before.drop_last() =~= rest);
            assert(before.last() == id);
            assert(tcx.has_alloc_below(before[before.len() - 1], tcx.allocs@.len() as int));
            assert(tcx.alloc_wf(id.index as int));
            assert(alloc_collectable(*tcx, before[before.len() - 1]));
            lemma_extended_append(seen, alloc_items(*tcx, id), pending_items(*tcx, rest));
            lemma_extended_one(seen);
        }
        match &tcx.allocs[id.index] {
            GlobalAlloc::Static(static_id) => {
                if tcx.should_codegen_locally(tcx.statics[static_id.index].instance) {
                    output.push(dummy_spanned(MonoItem::Static(*static_id)));
                }
            },
            GlobalAlloc::Memory(ptrs) => {
                let mut i: usize = ptrs.len();
                while i > 0
                    invariant
                        tcx.wf(),
                        i <= ptrs.len(),
                        id.index < tcx.allocs@.len(),
                        tcx.has_allocs_below(ptrs@, id.index as int),
                        all_allocs_collectable(*tcx, ptrs@, id.index),
                        tcx.has_allocs_below(stack@, tcx.allocs@.len() as int),
                        forall|j: int|
                            0 <= j < stack@.len() ==> alloc_collectable(
                                *tcx,
                                #[trigger] stack@[j],
                            ),
                        pending_items(*tcx, stack@) == all_alloc_items(
                            *tcx,
                            ptrs@.skip(i as int),
                            id.index,
                        ) + pending_items(*tcx, rest),
                        pending_steps(*tcx, stack@) == all_alloc_steps(
                            *tcx,
                            ptrs@.skip(i as int),
                            id.index,
                        ) + pending_steps(*tcx, rest),
                    decreases i,
                {
                    i -= 1;
                    let ghost shorter = stack@;
                    stack.push(ptrs[i]);
                    proof {
                        let tail = ptrs@.skip(i as int);
                        assert(tail.drop_first() =~= ptrs@.skip(i + 1));
                        assert(tail[0] == ptrs@[i as int]);
                        assert(tcx.has_alloc_below(ptrs@[i as int], id.index as int));
                        assert(alloc_collectable(*tcx, ptrs@[i as int]));
                        assert(stack@.drop_last() =~= shorter);
                        assert(pending_items(*tcx, stack@) =~= all_alloc_items(*tcx, tail, id.index)
                            + pending_items(*tcx, rest));
                    }
                }
                proof {
                    assert(ptrs@.skip(0) =~= ptrs@);
                }
            },
            GlobalAlloc::Function(instance) => {
                if tcx.should_codegen_locally(*instance) {
                    output.push(create_fn_mono_item(*instance, dummy_sp()));
                }
            },
            GlobalAlloc::VTable(memory) => {
                stack.push(*memory);
                proof {
                    assert(stack@.drop_last() =~= rest);
                    assert(alloc_items(*tcx, *memory) == alloc_items(*tcx, id));
                }
            },
        }
    }
}

/// The request for the function `instance`.
pub fn create_fn_mono_item(instance: Instance, source: Span) -> (res: Spanned<MonoItem>)
    ensures
        res == fn_item(instance, source),
        res.node == MonoItem::Fn(instance),
        res.span == source,
{
    respan(source, MonoItem::Fn(instance))
}

/// What a constant asks for: what the allocations ask for that it points to.
pub open spec fn const_items(tcx: TyCtxt, value: ConstValue) -> Seq<Spanned<MonoItem>> {
    match value {
        ConstValue::Scalar(Scalar::Ptr(alloc_id)) => alloc_items(tcx, alloc_id),
        ConstValue::Indirect { alloc_id } => alloc_items(tcx, alloc_id),
        ConstValue::Slice { data } => all_alloc_items(tcx, data@, tcx.allocs.len()),
        _ => seq![],
    }
}

/// No thread-local static can be reached from a constant.
pub open spec fn const_collectable(tcx: TyCtxt, value: ConstValue) -> bool {
    match value {
        ConstValue::Scalar(Scalar::Ptr(alloc_id)) => alloc_collectable(tcx, alloc_id),
        ConstValue::Indirect { alloc_id } => alloc_collectable(tcx, alloc_id),
        ConstValue::Slice { data } => {
            all_allocs_collectable(tcx, data@, tcx.allocs.len())
        },
        _ => true,
    }
}

/// Asks for what the constant `value` points to.
pub fn collect_const_value(tcx: &TyCtxt, value: &ConstValue, output: &mut MonoItems)
    requires
        tcx.wf(),
        tcx.const_wf(*value),
        const_collectable(*tcx, *value),
        old(output).inv(),
    ensures
        final(output).inv(),
        final(output)@ == extended(old(output)@, const_items(*tcx, *value)),
{
    match value {
        ConstValue::Scalar(Scalar::Ptr(alloc_id)) => collect_alloc(tcx, *alloc_id, output),
        ConstValue::Indirect { alloc_id } => collect_alloc(tcx, *alloc_id, output),
        ConstValue::Slice { data } => {
            let end: usize = tcx.allocs.len();
            let ghost start = output@;
            let mut i: usize = 0;
            proof {
                assert(data@.skip(0) =~= data@);
            }
            while i < data.len()
                invariant
                    tcx.wf(),
                    i <= data.len(),
                    end == tcx.allocs@.len(),
                    tcx.has_allocs_below(data@, end as int),
                    all_allocs_collectable(*tcx, data@, end),
                    output.inv(),
                    extended(output@, all_alloc_items(*tcx, data@.skip(i as int), end))
                        == extended(start, all_alloc_items(*tcx, data@, end)),
                decreases data.len() - i,
            {
                proof {
                    let tail = data@.skip(i as int);
                    assert(tail.drop_first() =~= data@.skip(i + 1));
                    assert(tail[0] == data@[i as int]);
                    assert(tcx.has_alloc_below(data@[i as int], end as int));
                    assert(alloc_collectable(*tcx, data@[i as int]));
                    lemma_extended_append(
                        output@,
                        alloc_items(*tcx, data@[i as int]),
                        all_alloc_items(*tcx, data@.skip(i + 1), end),
                    );
                }
                collect_alloc(tcx, data[i], output);
                i += 1;
            }
        },
        _ => {},
    }
}

/// What is asked for besides `instance` itself because its definition is an
/// intrinsic.
pub open spec fn intrinsic_items(tcx: TyCtxt, instance: Instance, source: Span) -> Seq<
    Spanned<MonoItem>,
> {
    match tcx.instances@[instance.index as int].intrinsic {
        Some(intrinsic) => if intrinsic.asserts_validity {
            local_fn_items(tcx, tcx.panic_nounwind->0, source)
        } else if !intrinsic.must_be_overridden {
            local_fn_items(tcx, intrinsic.fallback, source)
        } else {
            seq![]
        },
        None => seq![],
    }
}

/// What is asked for at a use of `instance` itself: nothing for what has no code
/// of its own, nor, where it is called at once, for drop glue that does nothing.
pub open spec fn kind_items(
    def: InstanceKind,
    instance: Instance,
    is_direct_call: bool,
    source: Span,
) -> Seq<Spanned<MonoItem>> {
    match def {
        InstanceKind::Virtual(..)
        | InstanceKind::Intrinsic(_)
        | InstanceKind::ThreadLocalShim(_) => seq![],
        InstanceKind::DropGlue(_, None) | InstanceKind::AsyncDropGlueCtorShim(_, None) => {
            if is_direct_call {
                seq![]
            } else {
                seq![fn_item(instance, source)]
            }
        },
        _ => seq![fn_item(instance, source)],
    }
}

/// What a use of `instance` asks for.
pub open spec fn instance_use_items(
    tcx: TyCtxt,
    instance: Instance,
    is_direct_call: bool,
    source: Span,
) -> Seq<Spanned<MonoItem>> {
    if tcx.codegen_locally(instance) {
        intrinsic_items(tcx, instance, source) + kind_items(
            tcx.instances@[instance.index as int].def,
            instance,
            is_direct_call,
            source,
        )
    } else {
        seq![]
    }
}

/// `instance` can be used so: what has no code of its own can be called and not
/// stored, access to a thread-local static can be neither here, and where an
/// intrinsic asserts validity there is a function to panic with.
pub open spec fn instance_use_collectable(
    tcx: TyCtxt,
    instance: Instance,
    is_direct_call: bool,
) -> bool {
    let data = tcx.instances@[instance.index as int];
    tcx.codegen_locally(instance) ==> {
        &&& data.intrinsic is Some && data.intrinsic->0.asserts_validity
            ==> tcx.panic_nounwind is Some
        &&& data.def is Virtual || data.def is Intrinsic ==> is_direct_call
        &&& !(data.def is ThreadLocalShim)
    }
}

/// Asks for what a use of `instance` needs code for.
pub fn visit_instance_use(
    tcx: &TyCtxt,
    instance: Instance,
    is_direct_call: bool,
    source: Span,
    output: &mut MonoItems,
)
    requires
        tcx.wf(),
        tcx.has_instance(instance),
        instance_use_collectable(*tcx, instance, is_direct_call),
        old(output).inv(),
    ensures
        final(output).inv(),
        final(output)@ == extended(
            old(output)@,
            instance_use_items(*tcx, instance, is_direct_call, source),
        ),
{
    let ghost start = output@;
    proof {
        lemma_extended_one(start);
    }
    if !tcx.should_codegen_locally(instance) {
        return;
    }
    proof {
        assert(tcx.instance_wf(tcx.instances@[instance.index as int]));
        lemma_extended_append(
            start,
            intrinsic_items(*tcx, instance, source),
            kind_items(
                tcx.instances@[instance.index as int].def,
                instance,
                is_direct_call,
                source,
            ),
        );
    }
    if let Some(intrinsic) = tcx.instances[instance.index].intrinsic {
        if intrinsic.asserts_validity {
            // The intrinsics that assert validity become nothing or a call to the function that
            // panics without unwinding. So if we encounter one of them, we need that function too,
            // else we may generate a call to a function without generating the function itself.
            let panic_instance = tcx.panic_nounwind.unwrap();
            if tcx.should_codegen_locally(panic_instance) {
                output.push(create_fn_mono_item(panic_instance, source));
            }
        } else if !intrinsic.must_be_overridden {
            // Generate the body that the intrinsic falls back on. We skip this otherwise to ensure
            // that we get a linker error if anyone tries to call this intrinsic and the code
            // generator did not override it.
            if tcx.should_codegen_locally(intrinsic.fallback) {
                output.push(create_fn_mono_item(intrinsic.fallback, source));
            }
        }
    }
    proof {
        lemma_extended_one(output@);
    }
    match tcx.instances[instance.index].def {
        InstanceKind::Virtual(..)
        | InstanceKind::Intrinsic(_)
        | InstanceKind::ThreadLocalShim(_) => {},
        InstanceKind::DropGlue(_, None) | InstanceKind::AsyncDropGlueCtorShim(_, None) => {
            // Drop glue that does nothing is not needed if we are calling directly.
            if !is_direct_call {
                output.push(create_fn_mono_item(instance, source));
            }
        },
        InstanceKind::DropGlue(_, Some(_))
        | InstanceKind::AsyncDropGlueCtorShim(_, Some(_))
        | InstanceKind::VTableShim(..)
        | InstanceKind::ReifyShim(..)
        | InstanceKind::ClosureOnceShim { .. }
        | InstanceKind::ConstructCoroutineInClosureShim { .. }
        | InstanceKind::Item(..)
        | InstanceKind::FnPtrShim(..)
        | InstanceKind::CloneShim(..)
        | InstanceKind::FnPtrAddrShim(..) => {
            output.push(create_fn_mono_item(instance, source));
        },
    }
}

/// What a drop of a value of type `ty` asks for.
pub open spec fn drop_use_items(tcx: TyCtxt, ty: Ty, is_direct_call: bool, source: Span) -> Seq<
    Spanned<MonoItem>,
> {
    instance_use_items(tcx, tcx.types@[ty.index as int].drop_in_place->0, is_direct_call, source)
}

/// There is an instance that drops a value of type `ty`.
pub open spec fn drop_use_collectable(tcx: TyCtxt, ty: Ty) -> bool {
    tcx.types@[ty.index as int].drop_in_place is Some
}

/// Drop glue can be called and stored.
pub proof fn lemma_drop_use_collectable(tcx: TyCtxt, ty: Ty, is_direct_call: bool)
    requires
        tcx.wf(),
        ty.index < tcx.types@.len(),
        drop_use_collectable(tcx, ty),
    ensures
        tcx.has_instance(tcx.types@[ty.index as int].drop_in_place->0),
        instance_use_collectable(
            tcx,
            tcx.types@[ty.index as int].drop_in_place->0,
            is_direct_call,
        ),
{
    assert(tcx.type_wf(ty.index as int));
    let glue = tcx.types@[ty.index as int].drop_in_place->0;
    assert(tcx.instance_wf(tcx.instances@[glue.index as int]));
}

/// Asks for what a drop of a value of type `ty` needs code for.
pub fn visit_drop_use(
    tcx: &TyCtxt,
    ty: Ty,
    is_direct_call: bool,
    source: Span,
    output: &mut MonoItems,
)
    requires
        tcx.wf(),
        ty.index < tcx.types@.len(),
        drop_use_collectable(*tcx, ty),
        old(output).inv(),
    ensures
        final(output).inv(),
        final(output)@ == extended(
            old(output)@,
            drop_use_items(*tcx, ty, is_direct_call, source),
        ),
{
    proof {
        lemma_drop_use_collectable(*tcx, ty, is_direct_call);
    }
    let instance = tcx.types[ty.index].drop_in_place.unwrap();
    visit_instance_use(tcx, instance, is_direct_call, source, output);
}

/// All requests of `items` are for something of the lists of `tcx`.
pub open spec fn all_known(tcx: TyCtxt, items: Seq<Spanned<MonoItem>>) -> bool {
    forall|i: int| 0 <= i < items.len() ==> tcx.has_mono_item((#[trigger] items[i]).node)
}

/// What an allocation asks for is in the lists.
pub proof fn lemma_alloc_items_known(tcx: TyCtxt, alloc_id: AllocId)
    requires
        tcx.wf(),
        alloc_id.index < tcx.allocs@.len(),
    ensures
        all_known(tcx, alloc_items(tcx, alloc_id)),
    decreases alloc_id.index, 1nat, 0nat,
{
    assert(tcx.alloc_wf(alloc_id.index as int));
    match tcx.allocs@[alloc_id.index as int] {
        GlobalAlloc::Memory(ptrs) => {
            lemma_all_alloc_items_known(tcx, ptrs@, alloc_id.index);
        },
        GlobalAlloc::VTable(memory) => {
            lemma_alloc_items_known(tcx, memory);
        },
        _ => {},
    }
}

/// What several allocations ask for is in the lists.
pub proof fn lemma_all_alloc_items_known(tcx: TyCtxt, ids: Seq<AllocId>, bound: usize)
    requires
        tcx.wf(),
        tcx.has_allocs_below(ids, bound as int),
    ensures
        all_known(tcx, all_alloc_items(tcx, ids, bound)),
    decreases bound, 0nat, ids.len(),
{
    if ids.len() > 0 {
        assert(tcx.has_alloc_below(ids[0], bound as int));
        lemma_alloc_items_known(tcx, ids[0]);
        assert forall|i: int| 0 <= i < ids.drop_first().len() implies tcx.has_alloc_below(
            #[trigger] ids.drop_first()[i],
            bound as int,
        ) by {
            assert(tcx.has_alloc_below(ids[i + 1], bound as int));
        }
        lemma_all_alloc_items_known(tcx, ids.drop_first(), bound);
    }
}

/// What a constant asks for is in the lists.
pub proof fn lemma_const_items_known(tcx: TyCtxt, value: ConstValue)
    requires
        tcx.wf(),
        tcx.const_wf(value),
    ensures
        all_known(tcx, const_items(tcx, value)),
{
    match value {
        ConstValue::Scalar(Scalar::Ptr(alloc_id)) => lemma_alloc_items_known(tcx, alloc_id),
        ConstValue::Indirect { alloc_id } => lemma_alloc_items_known(tcx, alloc_id),
        ConstValue::Slice { data } => {
            lemma_all_alloc_items_known(tcx, data@, tcx.allocs.len());
        },
        _ => {},
    }
}

/// What a use of an instance asks for is in the lists.
pub proof fn lemma_instance_use_items_known(
    tcx: TyCtxt,
    instance: Instance,
    is_direct_call: bool,
    source: Span,
)
    requires
        tcx.wf(),
        tcx.has_instance(instance),
        instance_use_collectable(tcx, instance, is_direct_call),
    ensures
        all_known(tcx, instance_use_items(tcx, instance, is_direct_call, source)),
{
    assert(tcx.instance_wf(tcx.instances@[instance.index as int]));
}

} // verus!
