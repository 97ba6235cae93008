use haj::install::{
    archive_install_args, aur_git_url, aur_info_url, confirm_key, confirm_line, install_key,
    install_line, install_question_text, native_install_args, pkgbuild_viewer_command,
    resolve_aur_targets, split_targets, AurInfo, AurNotice, InstallChoice, PromptKey,
};

fn s(v: &[&str]) -> Vec<String> {
    v.iter().map(|x| x.to_string()).collect()
}

#[test]
fn targets_split_by_origin() {
    let pkgs = s(&["htop", "yay", "vim"]);
    let in_repo = vec![true, false, true];
    let local = vec![None, Some("12.0-1".to_string()), None];
    let (native, aur) = split_targets(&pkgs, &in_repo, &local, false, false);
    assert_eq!(native, s(&["htop", "vim"]));
    assert_eq!(aur, vec![("yay".to_string(), Some("12.0-1".to_string()))]);
    let (native, aur) = split_targets(&pkgs, &in_repo, &local, true, false);
    assert!(native.is_empty());
    assert_eq!(aur.len(), 3);
    let (native, aur) = split_targets(&pkgs, &in_repo, &local, false, true);
    assert_eq!(native.len(), 3);
    assert!(aur.is_empty());
}

#[test]
fn aur_request_lists_every_name() {
    assert_eq!(
        aur_info_url(&s(&["yay", "paru"])),
        "https://aur.archlinux.org/rpc/v5/info?arg[]=yay&arg[]=paru&"
    );
    assert_eq!(aur_info_url(&vec![]), "https://aur.archlinux.org/rpc/v5/info?");
}

fn info(name: &str, version: Option<&str>, conflicts: Option<Vec<&str>>) -> AurInfo {
    AurInfo {
        name: Some(name.to_string()),
        version: version.map(|v| v.to_string()),
        conflicts: conflicts.map(|c| s(&c)),
    }
}

#[test]
fn aur_answers_are_resolved() {
    let results = vec![
        info("yay", Some("12.1-1"), Some(vec!["yay-bin"])),
        info("paru", Some("2.0-1"), Some(vec![])),
        info("same", Some("1.0"), None),
    ];
    let targets = vec![
        ("yay".to_string(), Some("12.0-1".to_string())),
        ("paru".to_string(), None),
        ("same".to_string(), Some("1.0".to_string())),
        ("missing".to_string(), None),
    ];
    let (built, conflicts, notes) = resolve_aur_targets(&results, &targets);
    assert_eq!(built.len(), 2);
    assert_eq!(built[0].name, "yay");
    assert_eq!(built[0].version, "12.1-1");
    assert!(built[0].is_update);
    assert_eq!(built[0].local_version.as_deref(), Some("12.0-1"));
    assert_eq!(built[1].name, "paru");
    assert!(!built[1].is_update);
    assert_eq!(conflicts, vec![("yay".to_string(), s(&["yay-bin"]))]);
    assert_eq!(
        notes,
        vec![
            AurNotice::UpToDate { name: "same".to_string(), version: "1.0".to_string() },
            AurNotice::NotFound { name: "missing".to_string() },
        ]
    );
}

#[test]
fn pacman_arguments() {
    assert_eq!(native_install_args(&s(&["a", "b"]), false), s(&["-S", "--noconfirm", "a", "b"]));
    assert_eq!(native_install_args(&s(&["a"]), true), s(&["-S", "--noconfirm", "--ask=4", "a"]));
    assert_eq!(archive_install_args("/p.pkg.tar.zst", false), s(&["-U", "/p.pkg.tar.zst", "--noconfirm"]));
    assert_eq!(
        archive_install_args("/p.pkg.tar.zst", true),
        s(&["-U", "/p.pkg.tar.zst", "--noconfirm", "--ask=4"])
    );
}

#[test]
fn answers_to_questions() {
    assert_eq!(confirm_key(PromptKey::Char('Y')), Some(true));
    assert_eq!(confirm_key(PromptKey::Enter), Some(true));
    assert_eq!(confirm_key(PromptKey::Char('n')), Some(false));
    assert_eq!(confirm_key(PromptKey::CtrlC), Some(false));
    assert_eq!(confirm_key(PromptKey::Char('x')), None);
    assert_eq!(install_key(PromptKey::Char('v')), Some(InstallChoice::View));
    assert_eq!(install_key(PromptKey::Enter), Some(InstallChoice::Yes));
    assert_eq!(install_key(PromptKey::Other), None);
    assert!(confirm_line("\n"));
    assert!(confirm_line(" Y \n"));
    assert!(!confirm_line("yes"));
    assert_eq!(install_line("V\n"), InstallChoice::View);
    assert_eq!(install_line(""), InstallChoice::Yes);
    assert_eq!(install_line("nope"), InstallChoice::No);
    assert_eq!(
        install_question_text(true, false),
        "proceed with installation? [Y/n/v] (v = view PKGBUILDs)"
    );
    assert_eq!(install_question_text(true, true), "proceed with installation? [Y/n]");
    assert_eq!(install_question_text(false, false), "proceed with installation? [Y/n]");
}

#[test]
fn build_script_viewer() {
    assert_eq!(
        pkgbuild_viewer_command("nvim", "/tmp/x/PKGBUILD"),
        Some(("nvim".to_string(), s(&["-R", "/tmp/x/PKGBUILD"])))
    );
    assert_eq!(
        pkgbuild_viewer_command("  Nano  -l ", "/p"),
        Some(("Nano".to_string(), s(&["-l", "-v", "/p"])))
    );
    assert_eq!(pkgbuild_viewer_command("less", "/p"), Some(("less".to_string(), s(&["/p"]))));
    assert_eq!(pkgbuild_viewer_command("   ", "/p"), None);
    assert_eq!(aur_git_url("yay"), "https://aur.archlinux.org/yay.git");
}
