//! Which modules of a crate use which others.

use crate::def::DefId;
use crate::def::LocalDefId;
use vstd::prelude::*;

verus! {

/// What a `use` declaration names, in one of the namespaces.
#[derive(Clone, Copy, PartialEq, Eq, Structural, Debug, Hash)]
pub struct Res {
    /// The definition, where it is one.
    pub def_id: Option<DefId>,
    /// The definition is a module.
    pub is_mod: bool,
    /// The module that the definition stands in, where it is one of this crate.
    pub parent_module: Option<LocalDefId>,
}

/// That one module uses another.
#[derive(Clone, Copy, PartialEq, Eq, Structural, Debug, Hash)]
pub struct Dependency {
    pub user: DefId,
    pub used: DefId,
}

impl Res {
    /// It is a definition of this crate.
    pub open spec fn names_local(self) -> bool {
        self.def_id is Some && self.def_id->0.is_local()
    }

    /// The module that is used: what is named if that is a module, else the module
    /// that it stands in.
    pub open spec fn used_module(self) -> DefId {
        if self.is_mod {
            self.def_id->0
        } else {
            self.parent_module->0.to_def_id()
        }
    }

    /// A definition of this crate is a module or stands in one.
    pub open spec fn wf(self) -> bool {
        self.names_local() && !self.is_mod ==> self.parent_module is Some
    }

    /// The module of this crate that is used, if it is one of this crate.
    pub fn local_module(&self) -> (res: Option<DefId>)
        requires
            self.wf(),
        ensures
            res == (if self.names_local() {
                Some(self.used_module())
            } else {
                None
            }),
            res is Some <==> self.def_id is Some && self.def_id->0.krate == 0,
            res is Some && self.is_mod ==> res == self.def_id,
            res is Some && !self.is_mod ==> res == Some(
                DefId { krate: 0, index: self.parent_module->0.index },
            ),
    {
        let is_local = match self.def_id {
            Some(def_id) => def_id.is_local(),
            None => false,
        };
        if is_local {
            if self.is_mod {
                self.def_id
            } else {
                Some(self.parent_module.unwrap().to_def_id())
            }
        } else {
            None
        }
    }
}

/// That the module `user` uses what `path` names: one dependency for each
/// definition of this crate among it, in their order.
pub open spec fn dependencies(user: LocalDefId, path: Seq<Res>) -> Seq<Dependency> {
    path.filter(|res: Res| res.names_local()).map_values(
        |res: Res| Dependency { user: user.to_def_id(), used: res.used_module() },
    )
}

/// The dependencies that a `use` declaration makes, which stands in the module
/// `parent` and names `path`.
pub fn visit_use(path: &Vec<Res>, parent: LocalDefId) -> (res: Vec<Dependency>)
    requires
        forall|i: int| 0 <= i < path@.len() ==> (#[trigger] path@[i]).wf(),
    ensures
        res@ == dependencies(parent, path@),
{
    let mut found: Vec<Dependency> = Vec::new();
    let mut i: usize = 0;
    while i < path.len()
        invariant
            i <= path.len(),
            forall|j: int| 0 <= j < path@.len() ==> (#[trigger] path@[j]).wf(),
            found@ == dependencies(parent, path@.take(i as int)),
        decreases path.len() - i,
    {
        proof {
            let next = path@.take(i + 1);
            assert(next.drop_last() =~= path@.take(i as int));
            assert(next.last() == path@[i as int]);
            reveal_with_fuel(Seq::filter, 2);
        }
        if let Some(used) = path[i].local_module() {
            found.push(Dependency { user: parent.to_def_id(), used });
        }
        assert(found@ =~= dependencies(parent, path@.take(i + 1)));
        i += 1;
    }
    assert(path@.take(i as int) =~= path@);
    found
}

/// Whether each of `path` is a module or stands in one, as far as it belongs to
/// this crate.
pub fn is_wf_path(path: &Vec<Res>) -> (res: bool)
    ensures
        res == (forall|i: int| 0 <= i < path@.len() ==> (#[trigger] path@[i]).wf()),
{
    let mut i: usize = 0;
    while i < path.len()
        invariant
            i <= path.len(),
            forall|j: int| 0 <= j < i ==> (#[trigger] path@[j]).wf(),
        decreases path.len() - i,
    {
        let res = path[i];
        let is_local = match res.def_id {
            Some(def_id) => def_id.is_local(),
            None => false,
        };
        if is_local && !res.is_mod && res.parent_module.is_none() {
            assert(!path@[i as int].wf());
            return false;
        }
        i += 1;
    }
    true
}

/// A dependency is always between two modules of this crate, and its user is the
/// module that the declaration stands in.
pub proof fn dependencies_are_local(user: LocalDefId, path: Seq<Res>, i: int)
    requires
        0 <= i < dependencies(user, path).len(),
    ensures
        dependencies(user, path)[i].user == user.to_def_id(),
        dependencies(user, path)[i].used.is_local(),
{
    broadcast use vstd::seq_lib::group_filter_ensures;

    let local = path.filter(|res: Res| res.names_local());
    assert(local[i].names_local());
}

/// Two declarations in one module make the dependencies of both.
pub proof fn dependencies_append(user: LocalDefId, a: Seq<Res>, b: Seq<Res>)
    ensures
        dependencies(user, a + b) == dependencies(user, a) + dependencies(user, b),
{
    let pred = |res: Res| res.names_local();
    Seq::<Res>::filter_distributes_over_add(a, b, pred);
    assert(dependencies(user, a + b) =~= dependencies(user, a) + dependencies(user, b));
}

/// A name is in order unless it is a definition of this crate that is no module
/// and is not known to stand in one.
pub proof fn name_in_order(res: Res)
    ensures
        res.wf() <==> res.def_id is None || res.def_id->0.krate != 0 || res.is_mod
            || res.parent_module is Some,
{
}

/// Each name of a declaration counts for itself, whatever stands before and after
/// it. A module of this crate is itself what is used, wherever it stands. Any
/// other definition of this crate stands for the module that it stands in. What
/// belongs to another crate, or is no definition, makes no dependency.
pub proof fn each_name_counts_for_itself(user: LocalDefId, a: Seq<Res>, res: Res, b: Seq<Res>)
    ensures
        dependencies(user, seq![]) == Seq::<Dependency>::empty(),
        ({
            let before = dependencies(user, a);
            let after = dependencies(user, b);
            let all = dependencies(user, a + seq![res] + b);
            let here = DefId { krate: 0, index: user.index };
            let around = DefId { krate: 0, index: res.parent_module->0.index };
            let is_local = res.def_id is Some && res.def_id->0.krate == 0;
            &&& is_local && res.is_mod ==> all == before + seq![
                Dependency { user: here, used: res.def_id->0 },
            ] + after
            &&& is_local && !res.is_mod ==> all == before + seq![
                Dependency { user: here, used: around },
            ] + after
            &&& !is_local ==> all == before + after
        }),
{
    reveal_with_fuel(Seq::filter, 2);
    assert(dependencies(user, seq![]) =~= Seq::<Dependency>::empty());
    dependencies_append(user, a + seq![res], b);
    dependencies_append(user, a, seq![res]);
    let one = dependencies(user, seq![res]);
    assert(seq![res].drop_last() =~= Seq::<Res>::empty());
    if res.names_local() {
        assert(one =~= seq![Dependency { user: user.to_def_id(), used: res.used_module() }]);
    } else {
        assert(one =~= Seq::<Dependency>::empty());
        assert(dependencies(user, a) + one =~= dependencies(user, a));
    }
}

/// A declaration makes a dependency exactly where one of its names is a module of
/// this crate, which is then what is used, or another definition of this crate,
/// whose module is then what is used.
pub proof fn dependency_is_of_a_name(user: LocalDefId, path: Seq<Res>, dependency: Dependency)
    ensures
        dependencies(user, path).contains(dependency) <==> exists|i: int|
            0 <= i < path.len() && (#[trigger] path[i]).def_id is Some && path[i].def_id->0.krate
                == 0 && dependency.user == (DefId { krate: 0, index: user.index })
                && dependency.used == if path[i].is_mod {
                path[i].def_id->0
            } else {
                DefId { krate: 0, index: path[i].parent_module->0.index }
            },
    decreases path.len(),
{
    if path.len() == 0 {
        each_name_counts_for_itself(user, seq![], arbitrary(), seq![]);
        assert(path =~= seq![]);
    } else {
        let front = path.drop_last();
        let last = path.last();
        let none = Seq::<Res>::empty();
        let before = dependencies(user, front);
        let all = dependencies(user, path);
        dependency_is_of_a_name(user, front, dependency);
        each_name_counts_for_itself(user, front, last, none);
        assert(front + seq![last] + none =~= path);
        assert(path[path.len() - 1] == last);
        assert forall|i: int| 0 <= i < front.len() implies path[i] == #[trigger] front[i] by {}
        if before.contains(dependency) {
            assert(all[before.index_of(dependency)] == dependency);
            let i = choose|i: int|
                0 <= i < front.len() && (#[trigger] front[i]).def_id is Some
                    && front[i].def_id->0.krate == 0 && dependency.user == (DefId {
                    krate: 0,
                    index: user.index,
                }) && dependency.used == if front[i].is_mod {
                    front[i].def_id->0
                } else {
                    DefId { krate: 0, index: front[i].parent_module->0.index }
                };
            assert(path[i] == front[i]);
        }
        if last.def_id is Some && last.def_id->0.krate == 0 {
            assert(all[before.len() as int].used == if last.is_mod {
                last.def_id->0
            } else {
                DefId { krate: 0, index: last.parent_module->0.index }
            });
        }
        if all.contains(dependency) {
            let k = all.index_of(dependency);
            if k < before.len() {
                assert(before[k] == dependency);
            }
        }
    }
}

} // verus!
