use haj::conflicts::{
    detect_conflicts, handle_conflicts_ui, split_conflict_constraint, ConflictInfo, DbPackage,
    DepMod, Depend,
};

fn conflict(incoming: &str, installed: &str, constraint: Option<&str>) -> ConflictInfo {
    ConflictInfo {
        incoming_pkg: incoming.to_string(),
        installed_pkg: installed.to_string(),
        constraint: constraint.map(|c| c.to_string()),
    }
}

#[test]
fn test_conflict_ui_no_conflict() {
    let conflicts = vec![];
    let res = handle_conflicts_ui(&conflicts, false, false, |_| true);
    assert_eq!(res, Ok(false));
}

#[test]
fn test_conflict_ui_accepted() {
    let conflicts = vec![ConflictInfo {
        incoming_pkg: "nvidia-dkms".to_string(),
        installed_pkg: "nvidia".to_string(),
        constraint: None,
    }];
    let res = handle_conflicts_ui(&conflicts, false, false, |_| true);
    assert_eq!(res, Ok(true));
}

#[test]
fn test_conflict_ui_declined() {
    let conflicts = vec![ConflictInfo {
        incoming_pkg: "nvidia-dkms".to_string(),
        installed_pkg: "nvidia".to_string(),
        constraint: None,
    }];
    let res = handle_conflicts_ui(&conflicts, false, false, |_| false);
    assert_eq!(res, Err("aborted: no changes were made."));
}

#[test]
fn test_conflict_ui_multiple() {
    let conflicts = vec![
        ConflictInfo {
            incoming_pkg: "a".to_string(),
            installed_pkg: "b".to_string(),
            constraint: None,
        },
        ConflictInfo {
            incoming_pkg: "c".to_string(),
            installed_pkg: "d".to_string(),
            constraint: None,
        },
    ];
    let mut prompt_count = 0;
    let res = handle_conflicts_ui(&conflicts, false, false, |_| {
        prompt_count += 1;
        true
    });
    assert_eq!(res, Ok(true));
    assert_eq!(prompt_count, 2);
}

#[test]
fn test_conflict_ui_dry_run() {
    let conflicts = vec![ConflictInfo {
        incoming_pkg: "nvidia-dkms".to_string(),
        installed_pkg: "nvidia".to_string(),
        constraint: None,
    }];
    let res = handle_conflicts_ui(&conflicts, true, false, |_| {
        panic!("Should not prompt on dry run")
    });
    assert_eq!(res, Ok(true));
}

#[test]
fn test_conflict_ui_noconfirm() {
    let conflicts = vec![ConflictInfo {
        incoming_pkg: "nvidia-dkms".to_string(),
        installed_pkg: "nvidia".to_string(),
        constraint: None,
    }];
    let res = handle_conflicts_ui(&conflicts, false, true, |_| {
        panic!("Should not prompt on noconfirm")
    });
    assert_eq!(
        res,
        Err(
            "conflicting packages detected and --noconfirm used without explicit authorization. aborting."
        )
    );
}

#[test]
fn conflict_prompt_names_both_packages() {
    let conflicts = vec![conflict("nvidia-dkms", "nvidia", None)];
    let mut asked = Vec::new();
    let res = handle_conflicts_ui(&conflicts, false, false, |q| {
        asked.push(q.to_string());
        true
    });
    assert_eq!(res, Ok(true));
    assert_eq!(asked, vec!["replace installed package 'nvidia' with 'nvidia-dkms'? [y/N]".to_string()]);
}

#[test]
fn first_refusal_stops_the_questions() {
    let conflicts = vec![conflict("a", "b", None), conflict("c", "d", None)];
    let mut count = 0;
    let res = handle_conflicts_ui(&conflicts, false, false, |_| {
        count += 1;
        false
    });
    assert_eq!(res, Err("aborted: no changes were made."));
    assert_eq!(count, 1);
}

#[test]
fn constraint_split_tries_operators_in_order() {
    assert_eq!(split_conflict_constraint("foo>=1.2"), ("foo".to_string(), Some(">=1.2".to_string())));
    assert_eq!(split_conflict_constraint("foo<=2"), ("foo".to_string(), Some("<=2".to_string())));
    assert_eq!(split_conflict_constraint("foo=3"), ("foo".to_string(), Some("=3".to_string())));
    assert_eq!(split_conflict_constraint("foo==3"), ("foo".to_string(), Some("==3".to_string())));
    assert_eq!(split_conflict_constraint("foo<3"), ("foo".to_string(), Some("<3".to_string())));
    assert_eq!(split_conflict_constraint("foo"), ("foo".to_string(), None));
    // `<=` is looked for before `=`, wherever each occurs
    assert_eq!(split_conflict_constraint("a=b<=c"), ("a=b".to_string(), Some("<=c".to_string())));
}

fn dep(name: &str, depmod: DepMod, version: Option<&str>) -> Depend {
    Depend { name: name.to_string(), depmod, version: version.map(|v| v.to_string()) }
}

fn pkg(name: &str, conflicts: Vec<Depend>) -> DbPackage {
    DbPackage { name: name.to_string(), conflicts }
}

#[test]
fn conflicts_are_found_sorted_and_once() {
    let sync = vec![
        vec![pkg("nvidia-dkms", vec![dep("nvidia", DepMod::Any, None)])],
        vec![pkg("nvidia-dkms", vec![dep("other", DepMod::Any, None)])],
    ];
    let local = vec![
        pkg("nvidia", vec![dep("nvidia-dkms", DepMod::Any, None)]),
        pkg("vim", vec![]),
        pkg("zsh", vec![dep("yay", DepMod::Lt, Some("12"))]),
    ];
    let native = vec!["nvidia-dkms".to_string()];
    let aur = vec![("yay".to_string(), vec!["vim>=9".to_string(), "absent".to_string()])];
    let found = detect_conflicts(&sync, &local, &native, &aur);
    assert_eq!(found.len(), 3);
    assert_eq!(found[0].incoming_pkg, "nvidia-dkms");
    assert_eq!(found[0].installed_pkg, "nvidia");
    assert_eq!(found[0].constraint, None);
    assert_eq!(found[1].incoming_pkg, "yay");
    assert_eq!(found[1].installed_pkg, "vim");
    assert_eq!(found[1].constraint.as_deref(), Some(">=9"));
    assert_eq!(found[2].incoming_pkg, "yay");
    assert_eq!(found[2].installed_pkg, "zsh");
    assert_eq!(found[2].constraint.as_deref(), Some("<12"));
}

#[test]
fn versioned_conflict_shows_its_comparison() {
    let sync = vec![vec![pkg("a", vec![dep("b", DepMod::Ge, Some("2.0"))])]];
    let local = vec![pkg("b", vec![])];
    let found = detect_conflicts(&sync, &local, &vec!["a".to_string()], &vec![]);
    assert_eq!(found.len(), 1);
    assert_eq!(found[0].constraint.as_deref(), Some(">=2.0"));
}
