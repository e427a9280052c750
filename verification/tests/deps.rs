use project_analyzer::def::{DefId, LocalDefId};
use project_analyzer::deps::{is_wf_path, visit_use, Dependency, Res};

fn local(index: u32) -> DefId {
    DefId { krate: 0, index }
}

fn foreign(index: u32) -> DefId {
    DefId { krate: 4, index }
}

fn module(def_id: DefId) -> Res {
    Res {
        def_id: Some(def_id),
        is_mod: true,
        parent_module: Some(LocalDefId { index: 0 }),
    }
}

fn item(def_id: DefId, parent: u32) -> Res {
    Res {
        def_id: Some(def_id),
        is_mod: false,
        parent_module: Some(LocalDefId { index: parent }),
    }
}

const NOTHING: Res = Res {
    def_id: None,
    is_mod: false,
    parent_module: None,
};

#[test]
fn a_module_is_used_itself() {
    let found = visit_use(&vec![module(local(7))], LocalDefId { index: 3 });
    assert_eq!(
        found,
        vec![Dependency {
            user: local(3),
            used: local(7)
        }]
    );
}

#[test]
fn an_item_stands_for_its_module() {
    let found = visit_use(&vec![item(local(7), 5)], LocalDefId { index: 3 });
    assert_eq!(
        found,
        vec![Dependency {
            user: local(3),
            used: local(5)
        }]
    );
}

#[test]
fn other_crates_are_not_dependencies() {
    let path = vec![
        module(foreign(7)),
        Res {
            def_id: Some(foreign(8)),
            is_mod: false,
            parent_module: None,
        },
    ];
    assert!(is_wf_path(&path));
    assert_eq!(visit_use(&path, LocalDefId { index: 3 }), vec![]);
}

#[test]
fn what_is_no_definition_is_no_dependency() {
    assert_eq!(visit_use(&vec![NOTHING], LocalDefId { index: 3 }), vec![]);
    assert_eq!(visit_use(&vec![], LocalDefId { index: 3 }), vec![]);
}

#[test]
fn each_namespace_counts_in_its_order() {
    let path = vec![
        item(local(9), 2),
        NOTHING,
        module(local(4)),
        item(foreign(1), 6),
        item(local(9), 2),
    ];
    let user = local(3);
    assert_eq!(
        visit_use(&path, LocalDefId { index: 3 }),
        vec![
            Dependency {
                user,
                used: local(2)
            },
            Dependency {
                user,
                used: local(4)
            },
            Dependency {
                user,
                used: local(2)
            },
        ]
    );
}

#[test]
fn two_declarations_make_the_dependencies_of_both() {
    let a = vec![item(local(9), 2), NOTHING];
    let b = vec![module(local(4))];
    let mut both = a.clone();
    both.extend(b.clone());
    let parent = LocalDefId { index: 1 };
    let mut expected = visit_use(&a, parent);
    expected.extend(visit_use(&b, parent));
    assert_eq!(visit_use(&both, parent), expected);
    assert_eq!(expected.len(), 2);
}

#[test]
fn a_local_item_without_a_module_is_out_of_order() {
    let res = Res {
        def_id: Some(local(7)),
        is_mod: false,
        parent_module: None,
    };
    assert!(!is_wf_path(&vec![module(local(1)), res]));
    assert!(is_wf_path(&vec![module(local(1)), NOTHING]));
    let root = Res {
        def_id: Some(local(0)),
        is_mod: true,
        parent_module: None,
    };
    assert!(is_wf_path(&vec![root]));
    assert_eq!(root.local_module(), Some(local(0)));
}

#[test]
fn local_names_and_back() {
    assert!(local(7).is_local());
    assert!(!foreign(7).is_local());
    assert_eq!(local(7).as_local(), Some(LocalDefId { index: 7 }));
    assert_eq!(foreign(7).as_local(), None);
    assert_eq!(LocalDefId { index: 7 }.to_def_id(), local(7));
}
